use vstd::prelude::*;

use crate::bytes::bytes_eq;

verus! {

/// The handle recorded for `name`, with later registrations shadowing
/// earlier ones (resolution never re-registers, so shadowing never
/// actually occurs).
pub open spec fn spec_lookup(entries: Seq<(Vec<u8>, u32)>, name: Seq<u8>) -> Option<u32>
    decreases entries.len(),
{
    if entries.len() == 0 {
        None
    } else if entries.last().0@ == name {
        Some(entries.last().1)
    } else {
        spec_lookup(entries.drop_last(), name)
    }
}

/// Resolves named protocol tokens (window-manager atoms, format names) to
/// the integer handles the display system assigned them, memoizing each
/// name after its first resolution: the one-time registration round-trip
/// happens outside, and its result is recorded here once and for all.
pub struct AtomRegistry {
    entries: Vec<(Vec<u8>, u32)>,
}

impl AtomRegistry {
    /// The recorded (name, handle) pairs, oldest first.
    pub closed spec fn entries(self) -> Seq<(Vec<u8>, u32)> {
        self.entries@
    }

    pub fn new() -> (r: AtomRegistry)
        ensures
            r.entries() == Seq::<(Vec<u8>, u32)>::empty(),
    {
        AtomRegistry { entries: Vec::new() }
    }

    /// The cached handle for `name`, if it was resolved before.
    pub fn lookup(&self, name: &[u8]) -> (r: Option<u32>)
        ensures
            r == spec_lookup(self.entries(), name@),
    {
        let n = self.entries.len();
        let mut i: usize = n;
        proof {
            assert(self.entries@.take(n as int) =~= self.entries@);
        }
        while i > 0
            invariant
                i <= self.entries@.len(),
                spec_lookup(self.entries@, name@) == spec_lookup(
                    self.entries@.take(i as int),
                    name@,
                ),
            decreases i,
        {
            i = i - 1;
            let entry = &self.entries[i];
            if bytes_eq(entry.0.as_slice(), name) {
                proof {
                    assert(self.entries@.take(i + 1).last() == self.entries@[i as int]);
                }
                return Some(entry.1);
            }
            proof {
                assert(self.entries@.take(i + 1).drop_last() =~= self.entries@.take(i as int));
            }
        }
        None
    }

    /// Resolves `name`: returns the memoized handle when one is recorded,
    /// and otherwise records and returns `fetched`, the handle that the
    /// one-time registration round-trip just produced.
    pub fn resolve(&mut self, name: &[u8], fetched: u32) -> (r: u32)
        ensures
            spec_lookup(old(self).entries(), name@) matches Some(h) ==> {
                &&& r == h
                &&& final(self).entries() == old(self).entries()
            },
            spec_lookup(old(self).entries(), name@) is None ==> {
                &&& r == fetched
                &&& final(self).entries().len() == old(self).entries().len() + 1
                &&& final(self).entries().drop_last() == old(self).entries()
                &&& final(self).entries().last().0@ == name@
                &&& final(self).entries().last().1 == fetched
            },
            spec_lookup(final(self).entries(), name@) == Some(r),
    {
        match self.lookup(name) {
            Some(h) => h,
            None => {
                let mut owned: Vec<u8> = Vec::new();
                owned.extend_from_slice(name);
                proof {
                    assert(owned@ =~= name@);
                }
                self.entries.push((owned, fetched));
                proof {
                    assert(self.entries@.drop_last() =~= old(self).entries@);
                }
                fetched
            },
        }
    }
}

} // verus!
