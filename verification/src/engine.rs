use vstd::prelude::*;

verus! {

/// The commands gathered for the next answer, in the order in which they were added.
pub struct Commands<C> {
    buffer: Vec<C>,
}

impl<C> View for Commands<C> {
    type V = Seq<C>;

    closed spec fn view(&self) -> Seq<C> {
        self.buffer@
    }
}

impl<C> Commands<C> {
    /// No commands yet.
    pub fn empty() -> (commands: Self)
        ensures
            commands@ == Seq::<C>::empty(),
    {
        Self { buffer: Vec::new() }
    }

    /// Puts a command behind those gathered so far.
    pub fn add(&mut self, command: C)
        ensures
            final(self)@ == old(self)@.push(command),
    {
        self.buffer.push(command);
    }

    /// Hands out the gathered commands, in order, and leaves none behind.
    pub fn execute(&mut self) -> (batch: Vec<C>)
        ensures
            batch@ == old(self)@,
            final(self)@ == Seq::<C>::empty(),
    {
        let mut batch: Vec<C> = Vec::new();
        core::mem::swap(&mut self.buffer, &mut batch);
        batch
    }
}

/// A strategy: it is started once, and then decides on one board after another.
/// Whatever it does, it only adds commands to those gathered so far.
pub trait Solver<C, B> {
    /// What holds of the solver between the calls; nothing, unless a solver says otherwise.
    open spec fn ready(&self) -> bool {
        true
    }

    /// The boards on which the solver can decide; all, unless a solver says otherwise.
    open spec fn accepts(&self, board: &B) -> bool {
        true
    }

    fn start(&mut self, commands: &mut Commands<C>)
        requires
            old(self).ready(),
        ensures
            final(self).ready(),
            old(commands)@.is_prefix_of(final(commands)@),
    ;

    fn solve(&mut self, commands: &mut Commands<C>, board: &B)
        requires
            old(self).ready(),
            old(self).accepts(board),
        ensures
            final(self).ready(),
            old(commands)@.is_prefix_of(final(commands)@),
    ;
}

/// What reading from the connection gave.
#[derive(Clone, Copy, Debug, PartialEq, Eq, Structural)]
pub enum Event {
    /// A text message.
    Text,
    /// The connection was closed.
    Closed,
    /// Reading failed in another way.
    Failed,
    /// A message of another kind.
    Other,
}

/// What is to be done about an event.
#[derive(Clone, Copy, Debug, PartialEq, Eq, Structural)]
pub enum Action {
    /// Start the solver and send what it asks for; the message itself is not read.
    Start,
    /// Read the board from the message, let the solver decide and send its commands.
    Solve,
    /// Note that the connection was closed, and stop.
    Close,
    /// Report the failure, and stop.
    Abort,
    /// Do nothing and read on.
    Ignore,
}

/// The course of one connection: whether its first text message is still to come.
#[derive(Clone, Copy, Debug, PartialEq, Eq, Structural)]
pub struct Session {
    pub is_first_message: bool,
}

impl Session {
    /// A connection on which nothing has been read yet.
    pub fn new() -> (session: Session)
        ensures
            session.is_first_message,
    {
        Session { is_first_message: true }
    }

    /// What follows from an event. The first text message starts the solver,
    /// every later one is a board to solve; only the first changes the session.
    pub open spec fn next(self, event: Event) -> (Session, Action) {
        match event {
            Event::Text => if self.is_first_message {
                (Session { is_first_message: false }, Action::Start)
            } else {
                (self, Action::Solve)
            },
            Event::Closed => (self, Action::Close),
            Event::Failed => (self, Action::Abort),
            Event::Other => (self, Action::Ignore),
        }
    }

    /// Takes an event and says what is to be done about it.
    pub fn step(&mut self, event: Event) -> (action: Action)
        ensures
            (*final(self), action) == old(self).next(event),
    {
        match event {
            Event::Text => if self.is_first_message {
                self.is_first_message = false;
                Action::Start
            } else {
                Action::Solve
            },
            Event::Closed => Action::Close,
            Event::Failed => Action::Abort,
            Event::Other => Action::Ignore,
        }
    }
}

} // verus!
