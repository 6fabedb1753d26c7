//! The subscriber broadcast hub.
//!
//! The hub owns the ordered collection of connected local subscribers. It
//! is generic over the handle the transport layer uses for one subscriber,
//! so the delivery writes themselves stay outside the library: a delivery
//! pass reports per-subscriber failure, and the hub prunes accordingly.

use vstd::prelude::*;

verus! {

/// The subscribers that stay after a delivery pass: those whose write
/// succeeded, in their original relative order.
pub open spec fn survivors<S>(subs: Seq<S>, failed: Seq<bool>) -> Seq<S>
    decreases subs.len(),
{
    if subs.len() == 0 {
        Seq::empty()
    } else {
        let rest = survivors(subs.drop_first(), failed.drop_first());
        if failed[0] {
            rest
        } else {
            seq![subs[0]] + rest
        }
    }
}

/// The ordered set of currently connected subscribers.
pub struct BroadcastHub<S> {
    pub subscribers: Vec<S>,
}

impl<S> BroadcastHub<S> {
    /// A hub with no subscribers.
    pub fn new() -> (h: Self)
        ensures
            h.subscribers@ == Seq::<S>::empty(),
    {
        let subscribers: Vec<S> = Vec::new();
        proof {
            assert(subscribers@ =~= Seq::<S>::empty());
        }
        BroadcastHub { subscribers }
    }

    /// How many subscribers are connected.
    pub fn len(&self) -> (n: usize)
        ensures
            n == self.subscribers@.len(),
    {
        self.subscribers.len()
    }

    /// Append a newly connected subscriber; earlier subscribers keep
    /// their position.
    pub fn accept(&mut self, s: S)
        ensures
            final(self).subscribers@ == old(self).subscribers@.push(s),
    {
        self.subscribers.push(s);
    }

    /// Remove every subscriber whose delivery failed in the pass just
    /// made, preserving the relative order of the survivors. `failed[i]`
    /// says whether the write to subscriber `i` failed.
    pub fn prune(&mut self, failed: &Vec<bool>)
        requires
            old(self).subscribers@.len() == failed@.len(),
        ensures
            final(self).subscribers@ == survivors(old(self).subscribers@, failed@),
    {
        let ghost orig = self.subscribers@;
        let ghost flags = failed@;
        let mut i: usize = self.subscribers.len();
        while i > 0
            invariant
                0 <= i <= orig.len(),
                flags == failed@,
                flags.len() == orig.len(),
                self.subscribers@ =~= orig.take(i as int) + survivors(
                    orig.skip(i as int),
                    flags.skip(i as int),
                ),
            decreases i,
        {
            i -= 1;
            proof {
                assert(orig.skip(i as int).drop_first() =~= orig.skip(i + 1));
                assert(flags.skip(i as int).drop_first() =~= flags.skip(i + 1));
                assert(orig.skip(i as int)[0] == orig[i as int]);
                assert(flags.skip(i as int)[0] == flags[i as int]);
            }
            if failed[i] {
                self.subscribers.remove(i);
                proof {
                    assert(self.subscribers@ =~= orig.take(i as int) + survivors(
                        orig.skip(i as int),
                        flags.skip(i as int),
                    ));
                }
            } else {
                proof {
                    assert(self.subscribers@ =~= orig.take(i as int) + survivors(
                        orig.skip(i as int),
                        flags.skip(i as int),
                    ));
                }
            }
        }
        proof {
            assert(orig.skip(0) =~= orig);
            assert(flags.skip(0) =~= flags);
            assert(self.subscribers@ =~= survivors(orig, flags));
        }
    }
}

} // verus!
