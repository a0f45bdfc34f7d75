//! Requests waiting to be handed out.

use vstd::prelude::*;

verus! {

/// A run of values that are handed out one by one, from the first.
#[derive(Debug)]
pub struct Outbox<T> {
    /// The last of them comes first.
    reversed: Vec<T>,
}

impl<T> View for Outbox<T> {
    type V = Seq<T>;

    closed spec fn view(&self) -> Seq<T> {
        self.reversed@.reverse()
    }
}

impl<T> Outbox<T> {
    /// The values of `block`, in order.
    pub fn new(block: Vec<T>) -> (outbox: Outbox<T>)
        ensures
            outbox@ == block@,
    {
        let ghost all = block@;
        let mut rest: Vec<T> = block;
        let mut reversed: Vec<T> = Vec::new();
        while rest.len() > 0
            invariant
                rest@ + reversed@.reverse() == all,
            decreases rest@.len(),
        {
            let ghost rest_before = rest@;
            let ghost reversed_before = reversed@;
            match rest.pop() {
                Some(value) => {
                    reversed.push(value);
                },
                None => {},
            }
            assert(rest@ + reversed@.reverse() =~= rest_before + reversed_before.reverse());
        }
        assert(reversed@.reverse() =~= all);
        Outbox { reversed }
    }

    /// Whether nothing is left.
    pub fn is_empty(&self) -> (empty: bool)
        ensures
            empty == (self@.len() == 0),
    {
        self.reversed.len() == 0
    }

    /// Takes the first value out.
    pub fn take_first(&mut self) -> (first: Option<T>)
        ensures
            match first {
                Some(value) => old(self)@.len() > 0 && old(self)@ == seq![value] + final(self)@,
                None => old(self)@.len() == 0 && final(self)@ == old(self)@,
            },
    {
        let ghost before = self@;
        let first: Option<T> = self.reversed.pop();
        assert(first is Some ==> before =~= seq![first->0] + self@);
        first
    }
}

} // verus!
