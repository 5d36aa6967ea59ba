//! The append-only timestamp store.
//!
//! A store holds the sequence of accepted instants in insertion order. It
//! only ever grows: the single mutating operation appends one instant at the
//! end, and reads take a full snapshot. Concurrent callers are modelled by
//! the interleaving predicate below: whatever order the arbitration of a
//! surrounding lock admits, the store ends up with every appended instant
//! and nothing else.

use vstd::prelude::*;
use crate::instant::Instant;

verus! {

pub struct Store {
    dates: Vec<Instant>,
}

impl View for Store {
    type V = Seq<Instant>;

    closed spec fn view(&self) -> Seq<Instant> {
        self.dates@
    }
}

impl Store {
    /// Every stored instant is well formed, so each can be rendered.
    pub open spec fn wf(&self) -> bool {
        forall|i: int| 0 <= i < self@.len() ==> #[trigger] self@[i].wf()
    }

    pub fn new() -> (s: Store)
        ensures
            s@ == Seq::<Instant>::empty(),
            s.wf(),
    {
        Store { dates: Vec::new() }
    }

    /// Append one instant at the end; the sequence only grows.
    pub fn append(&mut self, instant: Instant)
        requires
            instant.wf(),
            old(self).wf(),
        ensures
            final(self)@ == old(self)@.push(instant),
            final(self).wf(),
    {
        self.dates.push(instant);
        proof {
            assert forall|i: int| 0 <= i < self@.len() implies #[trigger] self@[i].wf() by {
                if i < old(self)@.len() {
                    assert(old(self)@[i].wf());
                }
            }
        }
    }

    /// A consistent copy of the stored sequence, in insertion order.
    pub fn snapshot(&self) -> (v: Vec<Instant>)
        ensures
            v@ == self@,
    {
        let mut v: Vec<Instant> = Vec::new();
        let mut k: usize = 0;
        while k < self.dates.len()
            invariant
                k <= self.dates.len(),
                v@ == self@.subrange(0, k as int),
            decreases self.dates.len() - k,
        {
            v.push(self.dates[k]);
            k = k + 1;
        }
        proof {
            assert(v@ =~= self@);
        }
        v
    }

    pub fn len(&self) -> (n: usize)
        ensures
            n == self@.len(),
    {
        self.dates.len()
    }
}

/// `c` is one of the orders in which two concurrent callers' appends, `a`
/// and `b`, can reach the store: a merge of `a` and `b` that keeps the
/// internal order of each.
pub open spec fn is_interleaving(a: Seq<Instant>, b: Seq<Instant>, c: Seq<Instant>) -> bool
    decreases c.len(),
{
    if c.len() == 0 {
        a.len() == 0 && b.len() == 0
    } else {
        ||| (a.len() > 0 && c[0] == a[0] && is_interleaving(a.drop_first(), b, c.drop_first()))
        ||| (b.len() > 0 && c[0] == b[0] && is_interleaving(a, b.drop_first(), c.drop_first()))
    }
}

/// Appends are never lost: after two callers' appends reach the store in any
/// interleaved order, the store holds exactly the old contents followed by
/// all appended instants — their count adds up, and the appended instants
/// are exactly those of the two callers.
pub proof fn lemma_concurrent_appends_lose_nothing(
    s0: Seq<Instant>,
    a: Seq<Instant>,
    b: Seq<Instant>,
    c: Seq<Instant>,
)
    requires
        is_interleaving(a, b, c),
    ensures
        (s0 + c).len() == s0.len() + a.len() + b.len(),
        c.to_multiset() == a.to_multiset().add(b.to_multiset()),
    decreases c.len(),
{
    broadcast use vstd::seq_lib::group_to_multiset_ensures;

    if c.len() == 0 {
        assert(c.to_multiset() =~= a.to_multiset().add(b.to_multiset()));
    } else {
        let x = c[0];
        assert(c.drop_first().to_multiset() =~= c.to_multiset().remove(x)) by {
            assert(c.remove(0) =~= c.drop_first());
        }
        assert(c.contains(x));
        assert(c.to_multiset() =~= c.drop_first().to_multiset().insert(x));
        if a.len() > 0 && c[0] == a[0] && is_interleaving(a.drop_first(), b, c.drop_first()) {
            lemma_concurrent_appends_lose_nothing(s0, a.drop_first(), b, c.drop_first());
            assert(a.drop_first().to_multiset() =~= a.to_multiset().remove(x)) by {
                assert(a.remove(0) =~= a.drop_first());
            }
            assert(a.contains(x));
            assert(a.to_multiset() =~= a.drop_first().to_multiset().insert(x));
            assert(c.to_multiset() =~= a.to_multiset().add(b.to_multiset()));
        } else {
            lemma_concurrent_appends_lose_nothing(s0, a, b.drop_first(), c.drop_first());
            assert(b.drop_first().to_multiset() =~= b.to_multiset().remove(x)) by {
                assert(b.remove(0) =~= b.drop_first());
            }
            assert(b.contains(x));
            assert(b.to_multiset() =~= b.drop_first().to_multiset().insert(x));
            assert(c.to_multiset() =~= a.to_multiset().add(b.to_multiset()));
        }
    }
}

} // verus!
