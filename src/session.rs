use vstd::prelude::*;
use crate::message::{parse_line, routed_of, RoutedMessage};

verus! {

/// What a connection does with one line it read.
pub enum LineAction {
    /// The first line: register the peer under this name.
    Register(String),
    /// A command line: hand this message to the router.
    Forward(RoutedMessage),
    /// A line without `:`: drop it.
    Skip,
}

/// The reading side of one connection: before its first line it has no
/// name; the first line names the peer, and each later line is a command.
pub struct Session {
    name: Option<String>,
}

impl View for Session {
    type V = Option<Seq<char>>;

    closed spec fn view(&self) -> Option<Seq<char>> {
        match self.name {
            Some(n) => Some(n@),
            None => None,
        }
    }
}

impl Session {
    /// A connection that has not sent its name yet.
    pub fn new() -> (r: Session)
        ensures
            r@ is None,
    {
        Session { name: None }
    }

    /// The peer's name, once the first line has been read.
    pub fn name(&self) -> (r: Option<String>)
        ensures
            r is None <==> self@ is None,
            r matches Some(n) ==> self@ == Some(n@),
    {
        match &self.name {
            Some(n) => Some(n.clone()),
            None => None,
        }
    }

    /// Decides what to do with the next line read from the connection. The
    /// first line is the peer's name, taken as it is; a later line is
    /// parsed as a command, and dropped where it holds no `:`.
    pub fn on_line(&mut self, line: String) -> (r: LineAction)
        ensures
            match old(self)@ {
                None => final(self)@ == Some(line@) && (r matches LineAction::Register(n) && n@
                    == line@),
                Some(name) => final(self)@ == old(self)@ && match routed_of(name, line@) {
                    Some(m) => r matches LineAction::Forward(f) && f@ == m,
                    None => r is Skip,
                },
            },
    {
        match &self.name {
            None => {
                let n = line.clone();
                self.name = Some(line);
                LineAction::Register(n)
            },
            Some(name) => match parse_line(name, line.as_str()) {
                Some(m) => LineAction::Forward(m),
                None => LineAction::Skip,
            },
        }
    }
}

} // verus!
