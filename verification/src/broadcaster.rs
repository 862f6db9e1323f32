//! Something that announces a message when a button is pressed.
use vstd::prelude::*;
use crate::text::joined;

verus! {

/// Something that announces a message.
pub trait Broadcaster {
    fn broadcast(&mut self);
}

/// Announces its message by printing it.
#[derive(Debug)]
pub struct PrintBroadcaster {
    msg: String,
}

impl PrintBroadcaster {
    pub closed spec fn view(&self) -> Seq<char> {
        self.msg@
    }

    pub fn new(msg: String) -> (r: Self)
        ensures
            r@ == msg@,
    {
        PrintBroadcaster { msg: msg }
    }

    /// The line printed when the message is announced: `BCAST: ` and the message.
    pub fn line(&self) -> (r: String)
        ensures
            r@ == "BCAST: "@ + self@,
    {
        joined("BCAST: ", self.msg.as_str())
    }

    /// The message announced.
    pub fn msg(&self) -> (r: &String)
        ensures
            r@ == self@,
    {
        &self.msg
    }
}

} // verus!
