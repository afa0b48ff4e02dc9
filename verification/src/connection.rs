//! The life of one echo connection: what it read and has yet to echo, and
//! whether it still runs.  The socket itself is driven around it.
use vstd::prelude::*;
use crate::echo::{echo_lines, echoes};
use crate::text::split_lines;

verus! {

/// Whether a connection still runs.
#[derive(Clone, Copy, Debug, PartialEq, Eq, Structural)]
pub enum ConnectionState {
    Running,
    Closed,
}

/// An echo connection: once it has echoed what it read, it closes.
pub struct Connection {
    pub state: ConnectionState,
    pending: Vec<Vec<u8>>,
}

/// The abstract state of a [`Connection`].
pub struct ConnectionModel {
    pub state: ConnectionState,
    /// Echoes waiting to be written, in order.
    pub pending: Seq<Seq<u8>>,
}

impl View for Connection {
    type V = ConnectionModel;

    closed spec fn view(&self) -> ConnectionModel {
        ConnectionModel {
            state: self.state,
            pending: self.pending@.map_values(|p: Vec<u8>| p@),
        }
    }
}

impl Connection {
    /// A running connection with nothing to echo.
    pub fn new() -> (conn: Self)
        ensures
            conn@.state == ConnectionState::Running,
            conn@.pending == Seq::<Seq<u8>>::empty(),
    {
        let conn = Connection { state: ConnectionState::Running, pending: Vec::new() };
        assert(conn@.pending =~= Seq::<Seq<u8>>::empty());
        conn
    }

    /// Whether the connection still runs.
    pub fn is_running(&self) -> (running: bool)
        ensures
            running == (self@.state == ConnectionState::Running),
    {
        self.state == ConnectionState::Running
    }

    /// Whether there are echoes to write.
    pub fn wants_write(&self) -> (wants: bool)
        ensures
            wants == (self@.pending.len() > 0),
    {
        self.pending.len() > 0
    }

    /// Queues the echoes of the lines in `buffer`.
    pub fn received(&mut self, buffer: &[u8])
        ensures
            final(self)@.state == old(self)@.state,
            final(self)@.pending == old(self)@.pending + echoes(split_lines(buffer@)),
    {
        let mut replies = echo_lines(buffer);
        let ghost before = self@.pending;
        let ghost added = replies@.map_values(|r: Vec<u8>| r@);
        self.pending.append(&mut replies);
        assert(self@.pending =~= before + added);
    }

    /// Reading failed: the connection closes.
    pub fn fail(&mut self)
        ensures
            final(self)@.state == ConnectionState::Closed,
            final(self)@.pending == old(self)@.pending,
    {
        self.state = ConnectionState::Closed;
    }

    /// The echoes to write now.  Once there were some to write, the
    /// connection closes; with none, nothing changes.
    pub fn take_replies(&mut self) -> (replies: Vec<Vec<u8>>)
        ensures
            replies@.map_values(|r: Vec<u8>| r@) == old(self)@.pending,
            final(self)@.pending == Seq::<Seq<u8>>::empty(),
            final(self)@.state == (if old(self)@.pending.len() > 0 {
                ConnectionState::Closed
            } else {
                old(self)@.state
            }),
    {
        let mut replies: Vec<Vec<u8>> = Vec::new();
        std::mem::swap(&mut replies, &mut self.pending);
        assert(self@.pending =~= Seq::<Seq<u8>>::empty());
        if replies.len() > 0 {
            self.state = ConnectionState::Closed;
        }
        replies
    }
}

} // verus!
