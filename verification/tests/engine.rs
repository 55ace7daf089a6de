use tetris_solver::engine::{Action, Commands, Event, Session};

#[test]
fn commands_come_out_in_the_order_they_went_in() {
    let mut commands: Commands<u8> = Commands::empty();
    commands.add(3);
    commands.add(1);
    commands.add(2);
    assert_eq!(commands.execute(), vec![3, 1, 2]);
}

#[test]
fn execute_leaves_nothing_behind() {
    let mut commands: Commands<&str> = Commands::empty();
    assert_eq!(commands.execute(), Vec::<&str>::new());
    commands.add("a");
    assert_eq!(commands.execute(), vec!["a"]);
    assert_eq!(commands.execute(), Vec::<&str>::new());
    commands.add("b");
    assert_eq!(commands.execute(), vec!["b"]);
}

#[test]
fn the_first_text_message_starts_the_solver() {
    let mut session = Session::new();
    assert!(session.is_first_message);
    assert_eq!(session.step(Event::Text), Action::Start);
    assert!(!session.is_first_message);
    assert_eq!(session.step(Event::Text), Action::Solve);
    assert_eq!(session.step(Event::Text), Action::Solve);
    assert!(!session.is_first_message);
}

#[test]
fn other_messages_do_not_count_as_the_first() {
    let mut session = Session::new();
    assert_eq!(session.step(Event::Other), Action::Ignore);
    assert!(session.is_first_message);
    assert_eq!(session.step(Event::Text), Action::Start);
    assert_eq!(session.step(Event::Other), Action::Ignore);
    assert_eq!(session.step(Event::Text), Action::Solve);
}

#[test]
fn a_closed_connection_and_a_failure_stop_the_session() {
    let mut session = Session::new();
    assert_eq!(session.step(Event::Closed), Action::Close);
    assert!(session.is_first_message);
    assert_eq!(session.step(Event::Failed), Action::Abort);
    let mut session = Session::new();
    assert_eq!(session.step(Event::Text), Action::Start);
    assert_eq!(session.step(Event::Failed), Action::Abort);
    assert_eq!(session.step(Event::Closed), Action::Close);
    assert!(!session.is_first_message);
}
