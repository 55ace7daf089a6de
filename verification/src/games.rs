pub mod tetris;
