use vstd::prelude::*;

use crate::text::push_str;

verus! {

/// A player's email address, with the code sent to check it.
#[derive(Clone, Debug)]
pub struct Email {
    pub address: String,
    pub code: Option<u32>,
    pub username: String,
    pub verified: bool,
}

impl Email {
    /// The address as a mailbox line: the username, a figure space (so that splitting on
    /// ASCII whitespace keeps the two together), and the address in angle brackets.
    pub fn tx(&self) -> (s: String)
        ensures
            s@ == self.username@ + "\u{2007}<"@ + self.address@ + ">"@,
    {
        let mut s = String::new();
        push_str(&mut s, self.username.as_str());
        push_str(&mut s, "\u{2007}<");
        push_str(&mut s, self.address.as_str());
        push_str(&mut s, ">");
        s
    }
}

} // verus!
