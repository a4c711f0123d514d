//! The identity map: a bidirectional mapping between stable network
//! identities and local simulation object handles. Both directions are kept
//! symmetric by construction — every insert and remove updates both at once,
//! and binding over an existing entry on either side is refused as a logic
//! error rather than silently overwritten.

use vstd::prelude::*;

use crate::NetIDType;

verus! {

/// Why a bind was refused: one side of the pair is already mapped.
#[derive(Clone, Copy, Debug, PartialEq, Eq, Structural)]
pub enum BindError {
    HandleInUse,
    IdentityInUse,
}

/// Bidirectional map between local handles and network identities.
pub struct IdentityMap {
    pairs: Vec<(u64, NetIDType)>,
}

spec fn spec_fwd_map(s: Seq<(u64, NetIDType)>) -> Map<u64, NetIDType>
    decreases s.len(),
{
    if s.len() == 0 {
        Map::empty()
    } else {
        spec_fwd_map(s.drop_last()).insert(s.last().0, s.last().1)
    }
}

spec fn spec_rev_map(s: Seq<(u64, NetIDType)>) -> Map<NetIDType, u64>
    decreases s.len(),
{
    if s.len() == 0 {
        Map::empty()
    } else {
        spec_rev_map(s.drop_last()).insert(s.last().1, s.last().0)
    }
}

spec fn distinct_pairs(s: Seq<(u64, NetIDType)>) -> bool {
    forall|i: int, j: int|
        0 <= i < j < s.len() ==> (#[trigger] s[i]).0 != (#[trigger] s[j]).0 && s[i].1 != s[j].1
}

proof fn lemma_distinct_pairs_drop_last(s: Seq<(u64, NetIDType)>)
    requires
        distinct_pairs(s),
        s.len() > 0,
    ensures
        distinct_pairs(s.drop_last()),
{
    let d = s.drop_last();
    assert forall|i: int, j: int|
        0 <= i < j < d.len() implies (#[trigger] d[i]).0 != (#[trigger] d[j]).0 && d[i].1
        != d[j].1 by {
        assert(d[i] == s[i] && d[j] == s[j]);
    }
}

/// Both directions of a well-formed pair list contain exactly the pairs.
proof fn lemma_pair_map_props(s: Seq<(u64, NetIDType)>)
    requires
        distinct_pairs(s),
    ensures
        forall|h: u64|
            #[trigger] spec_fwd_map(s).dom().contains(h) <==> exists|i: int|
                0 <= i < s.len() && (#[trigger] s[i]).0 == h,
        forall|i: int| 0 <= i < s.len() ==> spec_fwd_map(s)[(#[trigger] s[i]).0] == s[i].1,
        forall|n: NetIDType|
            #[trigger] spec_rev_map(s).dom().contains(n) <==> exists|i: int|
                0 <= i < s.len() && (#[trigger] s[i]).1 == n,
        forall|i: int| 0 <= i < s.len() ==> spec_rev_map(s)[(#[trigger] s[i]).1] == s[i].0,
    decreases s.len(),
{
    if s.len() > 0 {
        let d = s.drop_last();
        lemma_distinct_pairs_drop_last(s);
        lemma_pair_map_props(d);
        assert forall|i: int| 0 <= i < s.len() implies spec_fwd_map(s)[(#[trigger] s[i]).0]
            == s[i].1 && spec_rev_map(s)[(#[trigger] s[i]).1] == s[i].0 by {
            if i < s.len() - 1 {
                assert(s[i] == d[i]);
                assert(s[i].0 != s[s.len() - 1].0 && s[i].1 != s[s.len() - 1].1);
            }
        }
        assert forall|h: u64| #[trigger] spec_fwd_map(s).dom().contains(h) implies exists|i: int|
            0 <= i < s.len() && (#[trigger] s[i]).0 == h by {
            if h != s.last().0 {
                assert(spec_fwd_map(d).dom().contains(h));
                let i = choose|i: int| 0 <= i < d.len() && (#[trigger] d[i]).0 == h;
                assert(s[i] == d[i]);
                assert((s[i]).0 == h);
            } else {
                assert((s[s.len() - 1]).0 == h);
            }
        }
        assert forall|h: u64| (exists|i: int| 0 <= i < s.len() && (#[trigger] s[i]).0 == h)
            implies #[trigger] spec_fwd_map(s).dom().contains(h) by {
            let i = choose|i: int| 0 <= i < s.len() && (#[trigger] s[i]).0 == h;
            if i < s.len() - 1 {
                assert((d[i]).0 == h);
            }
        }
        assert forall|n: NetIDType| #[trigger] spec_rev_map(s).dom().contains(n) implies exists|
            i: int,
        | 0 <= i < s.len() && (#[trigger] s[i]).1 == n by {
            if n != s.last().1 {
                assert(spec_rev_map(d).dom().contains(n));
                let i = choose|i: int| 0 <= i < d.len() && (#[trigger] d[i]).1 == n;
                assert(s[i] == d[i]);
                assert((s[i]).1 == n);
            } else {
                assert((s[s.len() - 1]).1 == n);
            }
        }
        assert forall|n: NetIDType| (exists|i: int| 0 <= i < s.len() && (#[trigger] s[i]).1 == n)
            implies #[trigger] spec_rev_map(s).dom().contains(n) by {
            let i = choose|i: int| 0 <= i < s.len() && (#[trigger] s[i]).1 == n;
            if i < s.len() - 1 {
                assert((d[i]).1 == n);
            }
        }
    }
}

/// Removing one pair removes exactly its two keys, one from each direction.
proof fn lemma_pair_map_remove(s: Seq<(u64, NetIDType)>, i: int)
    requires
        distinct_pairs(s),
        0 <= i < s.len(),
    ensures
        distinct_pairs(s.remove(i)),
        spec_fwd_map(s.remove(i)) == spec_fwd_map(s).remove(s[i].0),
        spec_rev_map(s.remove(i)) == spec_rev_map(s).remove(s[i].1),
    decreases s.len(),
{
    s.remove_ensures(i);
    let r = s.remove(i);
    assert forall|a: int, b: int|
        0 <= a < b < r.len() implies (#[trigger] r[a]).0 != (#[trigger] r[b]).0 && r[a].1
        != r[b].1 by {
        let a0: int = if a < i {
            a
        } else {
            a + 1
        };
        let b0: int = if b < i {
            b
        } else {
            b + 1
        };
        assert(r[a] == s[a0] && r[b] == s[b0]);
    }
    lemma_distinct_pairs_drop_last(s);
    if i == s.len() - 1 {
        assert(r =~= s.drop_last());
        lemma_pair_map_props(s.drop_last());
        assert(!spec_fwd_map(s.drop_last()).dom().contains(s[i].0));
        assert(!spec_rev_map(s.drop_last()).dom().contains(s[i].1));
        assert(spec_fwd_map(s).remove(s[i].0) =~= spec_fwd_map(s.drop_last()));
        assert(spec_rev_map(s).remove(s[i].1) =~= spec_rev_map(s.drop_last()));
    } else {
        assert(r.drop_last() =~= s.drop_last().remove(i));
        assert(r.last() == s.last());
        lemma_pair_map_remove(s.drop_last(), i);
        assert(s.drop_last()[i] == s[i]);
        assert(s[i].0 != s.last().0 && s[i].1 != s.last().1);
        assert(spec_fwd_map(s.drop_last()).remove(s[i].0).insert(s.last().0, s.last().1)
            =~= spec_fwd_map(s.drop_last()).insert(s.last().0, s.last().1).remove(s[i].0));
        assert(spec_rev_map(s.drop_last()).remove(s[i].1).insert(s.last().1, s.last().0)
            =~= spec_rev_map(s.drop_last()).insert(s.last().1, s.last().0).remove(s[i].1));
    }
}

impl IdentityMap {
    /// The handle-to-identity direction.
    pub closed spec fn forward(&self) -> Map<u64, NetIDType> {
        spec_fwd_map(self.pairs@)
    }

    /// The identity-to-handle direction.
    pub closed spec fn reverse(&self) -> Map<NetIDType, u64> {
        spec_rev_map(self.pairs@)
    }

    /// Internal consistency: no handle and no identity is bound twice.
    pub closed spec fn wf(&self) -> bool {
        distinct_pairs(self.pairs@)
    }

    pub fn new() -> (r: Self)
        ensures
            r.wf(),
            r.forward() == Map::<u64, NetIDType>::empty(),
            r.reverse() == Map::<NetIDType, u64>::empty(),
    {
        IdentityMap { pairs: Vec::new() }
    }

    /// Binds a handle and an identity to each other, in both directions at
    /// once; refused exactly when either side is already bound, and the map
    /// is then unchanged.
    pub fn bind(&mut self, handle: u64, identity: NetIDType) -> (r: Result<(), BindError>)
        requires
            old(self).wf(),
        ensures
            final(self).wf(),
            r is Ok ==> {
                &&& !old(self).forward().dom().contains(handle)
                &&& !old(self).reverse().dom().contains(identity)
                &&& final(self).forward() == old(self).forward().insert(handle, identity)
                &&& final(self).reverse() == old(self).reverse().insert(identity, handle)
            },
            r == Err::<(), BindError>(BindError::HandleInUse) <==> old(
                self,
            ).forward().dom().contains(handle),
            r == Err::<(), BindError>(BindError::IdentityInUse) <==> !old(
                self,
            ).forward().dom().contains(handle) && old(self).reverse().dom().contains(identity),
            r is Err ==> *final(self) == *old(self),
    {
        proof {
            lemma_pair_map_props(self.pairs@);
        }
        let ghost prev = self.pairs@;
        let mut i: usize = 0;
        while i < self.pairs.len()
            invariant
                old(self).wf(),
                self == old(self),
                prev == self.pairs@,
                i <= prev.len(),
                forall|j: int| 0 <= j < i ==> (#[trigger] prev[j]).0 != handle,
            decreases prev.len() - i,
        {
            if self.pairs[i].0 == handle {
                proof {
                    lemma_pair_map_props(prev);
                }
                return Err(BindError::HandleInUse);
            }
            i += 1;
        }
        let mut j: usize = 0;
        while j < self.pairs.len()
            invariant
                old(self).wf(),
                self == old(self),
                prev == self.pairs@,
                j <= prev.len(),
                forall|k: int| 0 <= k < prev.len() ==> (#[trigger] prev[k]).0 != handle,
                forall|k: int| 0 <= k < j ==> (#[trigger] prev[k]).1 != identity,
            decreases prev.len() - j,
        {
            if self.pairs[j].1 == identity {
                proof {
                    lemma_pair_map_props(prev);
                }
                return Err(BindError::IdentityInUse);
            }
            j += 1;
        }
        self.pairs.push((handle, identity));
        proof {
            lemma_pair_map_props(prev);
            assert(self.pairs@.drop_last() =~= prev);
            assert forall|a: int, b: int|
                0 <= a < b < self.pairs@.len() implies (#[trigger] self.pairs@[a]).0
                != (#[trigger] self.pairs@[b]).0 && self.pairs@[a].1 != self.pairs@[b].1 by {
                if b < self.pairs@.len() - 1 {
                    assert(prev[a] == self.pairs@[a] && prev[b] == self.pairs@[b]);
                } else {
                    assert(self.pairs@[a] == prev[a]);
                }
            }
        }
        Ok(())
    }

    /// The identity a handle is bound to, if any.
    pub fn resolve_identity(&self, handle: u64) -> (r: Option<NetIDType>)
        requires
            self.wf(),
        ensures
            r matches Some(n) ==> self.forward().dom().contains(handle) && self.forward()[handle]
                == n,
            r is None ==> !self.forward().dom().contains(handle),
    {
        proof {
            lemma_pair_map_props(self.pairs@);
        }
        let mut i: usize = 0;
        while i < self.pairs.len()
            invariant
                self.wf(),
                i <= self.pairs@.len(),
                forall|j: int| 0 <= j < i ==> (#[trigger] self.pairs@[j]).0 != handle,
                forall|h: u64|
                    #[trigger] self.forward().dom().contains(h) <==> exists|j: int|
                        0 <= j < self.pairs@.len() && (#[trigger] self.pairs@[j]).0 == h,
                forall|j: int|
                    0 <= j < self.pairs@.len() ==> self.forward()[(#[trigger] self.pairs@[j]).0]
                        == self.pairs@[j].1,
            decreases self.pairs@.len() - i,
        {
            if self.pairs[i].0 == handle {
                return Some(self.pairs[i].1);
            }
            i += 1;
        }
        None
    }

    /// The handle an identity is bound to, if any. A missing entry means the
    /// object no longer exists; handlers drop such updates rather than fail.
    pub fn resolve_handle(&self, identity: NetIDType) -> (r: Option<u64>)
        requires
            self.wf(),
        ensures
            r matches Some(h) ==> self.reverse().dom().contains(identity)
                && self.reverse()[identity] == h,
            r is None ==> !self.reverse().dom().contains(identity),
    {
        proof {
            lemma_pair_map_props(self.pairs@);
        }
        let mut i: usize = 0;
        while i < self.pairs.len()
            invariant
                self.wf(),
                i <= self.pairs@.len(),
                forall|j: int| 0 <= j < i ==> (#[trigger] self.pairs@[j]).1 != identity,
                forall|n: NetIDType|
                    #[trigger] self.reverse().dom().contains(n) <==> exists|j: int|
                        0 <= j < self.pairs@.len() && (#[trigger] self.pairs@[j]).1 == n,
                forall|j: int|
                    0 <= j < self.pairs@.len() ==> self.reverse()[(#[trigger] self.pairs@[j]).1]
                        == self.pairs@[j].0,
            decreases self.pairs@.len() - i,
        {
            if self.pairs[i].1 == identity {
                return Some(self.pairs[i].0);
            }
            i += 1;
        }
        None
    }

    /// Unbinds an identity: both directions lose the pair at once; absent
    /// identities are a no-op.
    pub fn unbind(&mut self, identity: NetIDType)
        requires
            old(self).wf(),
        ensures
            final(self).wf(),
            final(self).reverse() == old(self).reverse().remove(identity),
            final(self).forward() == (if old(self).reverse().dom().contains(identity) {
                old(self).forward().remove(old(self).reverse()[identity])
            } else {
                old(self).forward()
            }),
    {
        proof {
            lemma_pair_map_props(self.pairs@);
        }
        let ghost prev = self.pairs@;
        let mut i: usize = 0;
        while i < self.pairs.len()
            invariant
                old(self).wf(),
                self == old(self),
                prev == self.pairs@,
                i <= prev.len(),
                forall|j: int| 0 <= j < i ==> (#[trigger] prev[j]).1 != identity,
            decreases prev.len() - i,
        {
            if self.pairs[i].1 == identity {
                proof {
                    lemma_pair_map_props(prev);
                    lemma_pair_map_remove(prev, i as int);
                }
                let _removed = self.pairs.remove(i);
                return ;
            }
            i += 1;
        }
        proof {
            lemma_pair_map_props(prev);
            assert(!old(self).reverse().dom().contains(identity));
            assert(old(self).reverse().remove(identity) =~= old(self).reverse());
        }
    }
}

/// The identity map invariant: after any sequence of binds and unbinds, the
/// two directions agree pair for pair — a handle maps to an identity exactly
/// when that identity maps back to the handle. With the resolvers' own
/// contracts this also means a lookup never returns an unbound counterpart.
pub proof fn lemma_identity_map_symmetric(m: &IdentityMap)
    requires
        m.wf(),
    ensures
        forall|h: u64, n: NetIDType|
            (#[trigger] m.forward().dom().contains(h) && m.forward()[h] == n) <==> (
            #[trigger] m.reverse().dom().contains(n) && m.reverse()[n] == h),
{
    lemma_pair_map_props(m.pairs@);
    assert forall|h: u64, n: NetIDType|
        (#[trigger] m.forward().dom().contains(h) && m.forward()[h] == n) implies (
    #[trigger] m.reverse().dom().contains(n) && m.reverse()[n] == h) by {
        let i = choose|i: int| 0 <= i < m.pairs@.len() && (#[trigger] m.pairs@[i]).0 == h;
        assert(m.pairs@[i].1 == n);
    }
    assert forall|h: u64, n: NetIDType|
        (#[trigger] m.reverse().dom().contains(n) && m.reverse()[n] == h) implies (
    #[trigger] m.forward().dom().contains(h) && m.forward()[h] == n) by {
        let i = choose|i: int| 0 <= i < m.pairs@.len() && (#[trigger] m.pairs@[i]).1 == n;
        assert(m.pairs@[i].0 == h);
    }
}

} // verus!
