//! Arguments handed to `run`.
//!
//! The query-builder layer passes the core a serialized term and, for
//! diagnostics, its textual rendering.  The core consumes the term blob
//! opaquely; nothing here interprets it.

use vstd::prelude::*;

verus! {

/// One command invocation's arguments: the serialized term and its
/// human-readable rendering.
#[derive(Debug, Clone)]
pub struct Args {
    pub term: Vec<u8>,
    pub string: String,
}

impl Args {
    /// Empty arguments.
    pub fn new() -> (r: Args)
        ensures
            r.term@.len() == 0,
            r.string@.len() == 0,
    {
        proof {
            reveal_strlit("");
        }
        Args { term: Vec::new(), string: "".to_owned() }
    }

    /// The serialized term.
    pub fn term(&self) -> (r: &Vec<u8>)
        ensures
            r == self.term,
    {
        &self.term
    }

    /// Replaces the serialized term.
    pub fn set_term(&mut self, term: Vec<u8>)
        ensures
            final(self).term == term,
            final(self).string == old(self).string,
    {
        self.term = term;
    }

    /// Replaces the textual rendering.
    pub fn set_string(&mut self, string: String)
        ensures
            final(self).string == string,
            final(self).term == old(self).term,
    {
        self.string = string;
    }
}

} // verus!
