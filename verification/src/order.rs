//! Numbers listed in ascending order.

use std::collections::BTreeMap;

use vstd::prelude::*;

verus! {

/// The numbers below `n` that `p` holds of, in ascending order.
pub open spec fn ascending(p: spec_fn(int) -> bool, n: nat) -> Seq<int>
    decreases n,
{
    if n == 0 {
        Seq::empty()
    } else {
        let rest = ascending(p, (n - 1) as nat);
        if p(n - 1) {
            rest.push(n - 1)
        } else {
            rest
        }
    }
}

/// A sequence is strictly increasing.
pub open spec fn increasing(s: Seq<int>) -> bool {
    forall|i: int, j: int| 0 <= i < j < s.len() ==> #[trigger] s[i] < #[trigger] s[j]
}

/// An increasing list of exactly the numbers below `n` that `p` holds of is
/// the ascending list.
pub proof fn lemma_ascending_unique(s: Seq<int>, p: spec_fn(int) -> bool, n: nat)
    requires
        increasing(s),
        forall|i: int| 0 <= i < s.len() ==> 0 <= #[trigger] s[i] < n && p(s[i]),
        forall|x: int| 0 <= x < n && p(x) ==> #[trigger] s.contains(x),
    ensures
        s == ascending(p, n),
    decreases n,
{
    if n == 0 {
        if s.len() > 0 {
            assert(0 <= s[0] < n);
        }
        assert(s =~= ascending(p, n));
    } else {
        let m = (n - 1) as nat;
        if p(n - 1) {
            assert(s.contains(n - 1));
            let k = choose|k: int| 0 <= k < s.len() && s[k] == n - 1;
            if k < s.len() - 1 {
                assert(s[k] < s[s.len() - 1]);
            }
            let t = s.drop_last();
            assert forall|i: int| 0 <= i < t.len() implies 0 <= #[trigger] t[i] < m && p(t[i]) by {
                assert(s[i] < s[s.len() - 1]);
            }
            assert forall|x: int| 0 <= x < m && p(x) implies #[trigger] t.contains(x) by {
                assert(s.contains(x));
                let j = choose|j: int| 0 <= j < s.len() && s[j] == x;
                assert(t[j] == x);
            }
            assert forall|i: int, j: int| 0 <= i < j < t.len() implies #[trigger] t[i]
                < #[trigger] t[j] by {
                assert(s[i] < s[j]);
            }
            lemma_ascending_unique(t, p, m);
            assert(s =~= t.push(n - 1));
        } else {
            assert forall|i: int| 0 <= i < s.len() implies 0 <= #[trigger] s[i] < m && p(s[i]) by {
                if s[i] == n - 1 {
                    assert(p(s[i]));
                }
            }
            lemma_ascending_unique(s, p, m);
        }
    }
}

/// What the ascending list holds: only numbers below `n` that `p` holds of,
/// all of them, in increasing order.
pub proof fn lemma_ascending(p: spec_fn(int) -> bool, n: nat)
    ensures
        increasing(ascending(p, n)),
        forall|i: int|
            0 <= i < ascending(p, n).len() ==> 0 <= #[trigger] ascending(p, n)[i] < n && p(
                ascending(p, n)[i],
            ),
        forall|x: int| 0 <= x < n && p(x) ==> #[trigger] ascending(p, n).contains(x),
    decreases n,
{
    if n > 0 {
        let m = (n - 1) as nat;
        lemma_ascending(p, m);
        let rest = ascending(p, m);
        let s = ascending(p, n);
        assert forall|x: int| 0 <= x < n && p(x) implies #[trigger] s.contains(x) by {
            if x == n - 1 {
                assert(s[s.len() - 1] == x);
            } else {
                assert(rest.contains(x));
                let j = choose|j: int| 0 <= j < rest.len() && rest[j] == x;
                assert(s[j] == x);
            }
        }
        assert forall|i: int| 0 <= i < s.len() implies 0 <= #[trigger] s[i] < n && p(s[i]) by {
            if i < rest.len() {
                assert(s[i] == rest[i]);
            }
        }
        assert forall|i: int, j: int| 0 <= i < j < s.len() implies #[trigger] s[i]
            < #[trigger] s[j] by {
            assert(s[i] == rest[i]);
            if j < rest.len() {
                assert(s[j] == rest[j]);
                assert(rest[i] < rest[j]);
            }
        }
    }
}

/// Two conditions that agree below `n` give one list.
pub proof fn lemma_ascending_same(p: spec_fn(int) -> bool, q: spec_fn(int) -> bool, n: nat)
    requires
        forall|x: int| 0 <= x < n ==> #[trigger] p(x) == q(x),
    ensures
        ascending(p, n) == ascending(q, n),
    decreases n,
{
    if n > 0 {
        lemma_ascending_same(p, q, (n - 1) as nat);
        assert(p(n - 1) == q(n - 1));
    }
}

/// Numbers as integers.
pub open spec fn ints16(s: Seq<u16>) -> Seq<int> {
    Seq::new(s.len(), |i: int| s[i] as int)
}

/// Numbers as integers.
pub open spec fn ints32(s: Seq<u32>) -> Seq<int> {
    Seq::new(s.len(), |i: int| s[i] as int)
}

proof fn lemma_keys_increase16(s: Seq<&u16>)
    requires
        vstd::std_specs::btree::increasing_seq(s),
    ensures
        forall|i: int, j: int| 0 <= i < j < s.len() ==> *(#[trigger] s[i]) < *(#[trigger] s[j]),
{
    assert(vstd::laws_cmp::obeys_cmp::<&u16>());
    assert forall|i: int, j: int| 0 <= i < j < s.len() implies *(#[trigger] s[i])
        < *(#[trigger] s[j]) by {
        assert(vstd::std_specs::cmp::OrdSpec::cmp_spec(&s[i], &s[j]) is Less);
    }
}

/// The keys of a map in ascending order.
pub fn sorted_keys16<V>(m: &BTreeMap<u16, V>) -> (r: Vec<u16>)
    ensures
        ints16(r@) == ascending(|x: int| m@.contains_key(x as u16), 0x1_0000),
{
    let ghost all = vstd::std_specs::iter::IteratorSpec::remaining(
        &vstd::std_specs::btree::spec_keys_iter(m),
    );
    let mut out: Vec<u16> = Vec::new();
    for k in it: m.keys()
        invariant
            it.seq() == all,
            out@.len() == it.index(),
            forall|i: int| 0 <= i < it.index() ==> out@[i] == *(#[trigger] all[i]),
    {
        out.push(*k);
    }
    proof {
        let p = |x: int| m@.contains_key(x as u16);
        let s = ints16(out@);
        assert(all.unref().to_set() == m@.dom());
        assert(out@ =~= all.unref());
        lemma_keys_increase16(all);
        assert forall|i: int, j: int| 0 <= i < j < s.len() implies #[trigger] s[i]
            < #[trigger] s[j] by {
            assert(out@[i] == *all[i] && out@[j] == *all[j]);
        }
        assert forall|i: int| 0 <= i < s.len() implies 0 <= #[trigger] s[i] < 0x1_0000 && p(
            s[i],
        ) by {
            assert(all.unref().to_set().contains(out@[i]));
            assert(m@.contains_key(out@[i]));
        }
        assert forall|x: int| 0 <= x < 0x1_0000 && p(x) implies #[trigger] s.contains(x) by {
            assert(all.unref().to_set().contains(x as u16));
            let j = choose|j: int| 0 <= j < out@.len() && out@[j] == x as u16;
            assert(s[j] == x);
        }
        lemma_ascending_unique(s, p, 0x1_0000);
    }
    out
}

proof fn lemma_keys_increase32(s: Seq<&u32>)
    requires
        vstd::std_specs::btree::increasing_seq(s),
    ensures
        forall|i: int, j: int| 0 <= i < j < s.len() ==> *(#[trigger] s[i]) < *(#[trigger] s[j]),
{
    assert(vstd::laws_cmp::obeys_cmp::<&u32>());
    assert forall|i: int, j: int| 0 <= i < j < s.len() implies *(#[trigger] s[i])
        < *(#[trigger] s[j]) by {
        assert(vstd::std_specs::cmp::OrdSpec::cmp_spec(&s[i], &s[j]) is Less);
    }
}

/// The keys of a map in ascending order.
pub fn sorted_keys32<V>(m: &BTreeMap<u32, V>) -> (r: Vec<u32>)
    requires
        forall|k: u32| #[trigger] m@.contains_key(k) ==> k < 0x100_0000,
    ensures
        ints32(r@) == ascending(|x: int| m@.contains_key(x as u32), 0x100_0000),
{
    let ghost all = vstd::std_specs::iter::IteratorSpec::remaining(
        &vstd::std_specs::btree::spec_keys_iter(m),
    );
    let mut out: Vec<u32> = Vec::new();
    for k in it: m.keys()
        invariant
            it.seq() == all,
            out@.len() == it.index(),
            forall|i: int| 0 <= i < it.index() ==> out@[i] == *(#[trigger] all[i]),
    {
        out.push(*k);
    }
    proof {
        let p = |x: int| m@.contains_key(x as u32);
        let s = ints32(out@);
        assert(all.unref().to_set() == m@.dom());
        assert(out@ =~= all.unref());
        lemma_keys_increase32(all);
        assert forall|i: int, j: int| 0 <= i < j < s.len() implies #[trigger] s[i]
            < #[trigger] s[j] by {
            assert(out@[i] == *all[i] && out@[j] == *all[j]);
        }
        assert forall|i: int| 0 <= i < s.len() implies 0 <= #[trigger] s[i] < 0x100_0000 && p(
            s[i],
        ) by {
            assert(all.unref().to_set().contains(out@[i]));
            assert(m@.contains_key(out@[i]));
        }
        assert forall|x: int| 0 <= x < 0x100_0000 && p(x) implies #[trigger] s.contains(x) by {
            assert(all.unref().to_set().contains(x as u32));
            let j = choose|j: int| 0 <= j < out@.len() && out@[j] == x as u32;
            assert(s[j] == x);
        }
        lemma_ascending_unique(s, p, 0x100_0000);
    }
    out
}

} // verus!
