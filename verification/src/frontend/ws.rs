//! The web socket's outgoing messages, which wait while it is not open.
use std::collections::VecDeque;
use vstd::prelude::*;

verus! {

/// The ready state of an open web socket.
pub const OPEN: u16 = 1;

/// Messages that could not be sent yet, in the order in which they came.
pub struct Outbox {
    pending: VecDeque<String>,
}

impl View for Outbox {
    type V = Seq<Seq<char>>;

    closed spec fn view(&self) -> Seq<Seq<char>> {
        crate::text::texts(self.pending@)
    }
}

impl Outbox {
    /// No message waits.
    pub fn new() -> (r: Outbox)
        ensures
            r@.len() == 0,
    {
        Outbox { pending: VecDeque::new() }
    }

    /// Takes a message: gives it back to be sent at once where the socket is open, and keeps it
    /// behind the others where it is not.
    pub fn send(&mut self, ready_state: u16, encoded: String) -> (r: Option<String>)
        ensures
            if ready_state == OPEN {
                r == Some(encoded) && final(self)@ == old(self)@
            } else {
                r is None && final(self)@ == old(self)@.push(encoded@)
            },
    {
        if ready_state == OPEN {
            Some(encoded)
        } else {
            self.pending.push_back(encoded);
            assert(self@ =~= old(self)@.push(encoded@));
            None
        }
    }

    /// The messages to send now that the socket is open: all that wait, the oldest first.
    pub fn on_open(&mut self) -> (r: Vec<String>)
        ensures
            crate::text::texts(r@) == old(self)@,
            final(self)@.len() == 0,
    {
        let ghost all = self@;
        let mut r: Vec<String> = Vec::new();
        assert(crate::text::texts(r@) + all =~= all);
        while self.pending.len() > 0
            invariant
                crate::text::texts(r@) + self@ == all,
            decreases self.pending@.len(),
        {
            let ghost before = self.pending@;
            let ghost sent = r@;
            match self.pending.pop_front() {
                Some(m) => {
                    r.push(m);
                    assert(crate::text::texts(before) =~= seq![m@] + crate::text::texts(self.pending@));
                    assert(crate::text::texts(r@) =~= crate::text::texts(sent).push(m@));
                    assert(crate::text::texts(r@) + self@ =~= crate::text::texts(sent) + crate::text::texts(
                        before,
                    ));
                },
                None => {},
            }
        }
        assert(self@ =~= Seq::empty());
        assert(crate::text::texts(r@) =~= all);
        r
    }
}

} // verus!
