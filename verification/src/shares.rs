//! Combining Diffie-Hellman shares into one byte string that does not depend
//! on the order in which a peer computed them.

use crate::bytes;
use crate::keys::PUBLIC_KEY_LEN;
use vstd::prelude::*;
use vstd::relations::*;
use vstd::seq_lib::*;

verus! {

/// Whether `a` stands before `b` in the lexicographic order of byte strings, or
/// equals it.
pub open spec fn lex_le(a: Seq<u8>, b: Seq<u8>) -> bool
    decreases a.len(),
{
    if a.len() == 0 {
        true
    } else if b.len() == 0 {
        false
    } else if a[0] != b[0] {
        a[0] < b[0]
    } else {
        lex_le(a.skip(1), b.skip(1))
    }
}

/// The lexicographic order as a relation.
pub open spec fn lex_order() -> spec_fn(Seq<u8>, Seq<u8>) -> bool {
    |a: Seq<u8>, b: Seq<u8>| lex_le(a, b)
}

/// Byte strings one after the other.
pub open spec fn joined(parts: Seq<Seq<u8>>) -> Seq<u8>
    decreases parts.len(),
{
    if parts.len() == 0 {
        Seq::empty()
    } else {
        joined(parts.drop_last()) + parts.last()
    }
}

/// The shares in lexicographic order, one after the other.
pub open spec fn combined(shares: Seq<Seq<u8>>) -> Seq<u8> {
    joined(shares.sort_by(lex_order()))
}

/// The bytes of each share.
pub open spec fn share_views(shares: Seq<&[u8; PUBLIC_KEY_LEN]>) -> Seq<Seq<u8>> {
    Seq::new(shares.len(), |i: int| shares[i]@)
}

/// The order of the shares does not matter to their combination.
pub proof fn combined_ignores_order(a: Seq<Seq<u8>>, b: Seq<Seq<u8>>)
    requires
        a.to_multiset() == b.to_multiset(),
    ensures
        combined(a) == combined(b),
{
    lemma_lex_total();
    a.lemma_sort_by_ensures(lex_order());
    b.lemma_sort_by_ensures(lex_order());
    lemma_sorted_unique(a.sort_by(lex_order()), b.sort_by(lex_order()), lex_order());
}

/// The combination of shares that are in order already joins them as they are.
pub proof fn combined_keeps_sorted(sorted: Seq<Seq<u8>>)
    requires
        forall|i: int, j: int|
            #![trigger sorted[i], sorted[j]]
            0 <= i < j < sorted.len() ==> lex_le(sorted[i], sorted[j]),
    ensures
        combined(sorted) == joined(sorted),
{
    lemma_lex_total();
    sorted.lemma_sort_by_ensures(lex_order());
    assert(sorted_by(sorted, lex_order()));
    lemma_sorted_unique(sorted, sorted.sort_by(lex_order()), lex_order());
}

proof fn lemma_lex_reflexive(a: Seq<u8>)
    ensures
        lex_le(a, a),
    decreases a.len(),
{
    if a.len() > 0 {
        lemma_lex_reflexive(a.skip(1));
    }
}

proof fn lemma_lex_antisymmetric(a: Seq<u8>, b: Seq<u8>)
    requires
        lex_le(a, b),
        lex_le(b, a),
    ensures
        a == b,
    decreases a.len(),
{
    if a.len() > 0 && b.len() > 0 {
        lemma_lex_antisymmetric(a.skip(1), b.skip(1));
        assert(a =~= seq![a[0]] + a.skip(1));
        assert(b =~= seq![b[0]] + b.skip(1));
    } else {
        assert(a =~= b);
    }
}

proof fn lemma_lex_transitive(a: Seq<u8>, b: Seq<u8>, c: Seq<u8>)
    requires
        lex_le(a, b),
        lex_le(b, c),
    ensures
        lex_le(a, c),
    decreases a.len(),
{
    if a.len() > 0 && b.len() > 0 && c.len() > 0 && a[0] == b[0] && b[0] == c[0] {
        lemma_lex_transitive(a.skip(1), b.skip(1), c.skip(1));
    }
}

proof fn lemma_lex_connected(a: Seq<u8>, b: Seq<u8>)
    ensures
        lex_le(a, b) || lex_le(b, a),
    decreases a.len(),
{
    if a.len() > 0 && b.len() > 0 && a[0] == b[0] {
        lemma_lex_connected(a.skip(1), b.skip(1));
    }
}

/// The lexicographic order is a total order.
proof fn lemma_lex_total()
    ensures
        total_ordering(lex_order()),
{
    let r = lex_order();
    assert forall|x: Seq<u8>| #[trigger] r(x, x) by {
        lemma_lex_reflexive(x);
    }
    assert forall|x: Seq<u8>, y: Seq<u8>| #[trigger] r(x, y) && #[trigger] r(y, x) implies x
        == y by {
        lemma_lex_antisymmetric(x, y);
    }
    assert forall|x: Seq<u8>, y: Seq<u8>, z: Seq<u8>| #[trigger] r(x, y) && #[trigger] r(
        y,
        z,
    ) implies r(x, z) by {
        lemma_lex_transitive(x, y, z);
    }
    assert forall|x: Seq<u8>, y: Seq<u8>| #[trigger] r(x, y) || r(y, x) by {
        lemma_lex_connected(x, y);
    }
}

/// The combination of shares of one length is as long as all of them.
pub proof fn lemma_combined_len(shares: Seq<Seq<u8>>, len: nat)
    requires
        forall|i: int| 0 <= i < shares.len() ==> (#[trigger] shares[i]).len() == len,
    ensures
        combined(shares).len() == len * shares.len(),
{
    let sorted = shares.sort_by(lex_order());
    lemma_lex_total();
    shares.lemma_sort_by_ensures(lex_order());
    to_multiset_len(shares);
    to_multiset_len(sorted);
    assert forall|i: int| 0 <= i < sorted.len() implies (#[trigger] sorted[i]).len() == len by {
        assert(sorted.contains(sorted[i]));
        assert(shares.contains(sorted[i]));
    }
    lemma_joined_len(sorted, len);
}

proof fn lemma_joined_len(parts: Seq<Seq<u8>>, len: nat)
    requires
        forall|i: int| 0 <= i < parts.len() ==> (#[trigger] parts[i]).len() == len,
    ensures
        joined(parts).len() == len * parts.len(),
    decreases parts.len(),
{
    if parts.len() > 0 {
        lemma_joined_len(parts.drop_last(), len);
        assert(len * parts.len() == len * (parts.len() - 1) + len) by (nonlinear_arith);
    } else {
        assert(len * parts.len() == 0) by (nonlinear_arith)
            requires
                parts.len() == 0,
        ;
    }
}

/// Compares two shares.
fn at_most(a: &[u8; PUBLIC_KEY_LEN], b: &[u8; PUBLIC_KEY_LEN]) -> (r: bool)
    ensures
        r == lex_le(a@, b@),
{
    let mut i: usize = 0;
    assert(a@.skip(0) =~= a@);
    assert(b@.skip(0) =~= b@);
    while i < PUBLIC_KEY_LEN
        invariant
            i <= 32,
            lex_le(a@, b@) == lex_le(a@.skip(i as int), b@.skip(i as int)),
        decreases 32 - i,
    {
        let ghost (rest_a, rest_b) = (a@.skip(i as int), b@.skip(i as int));
        assert(rest_a[0] == a@[i as int] && rest_b[0] == b@[i as int]);
        if a[i] != b[i] {
            return a[i] < b[i];
        }
        assert(rest_a.skip(1) =~= a@.skip(i + 1));
        assert(rest_b.skip(1) =~= b@.skip(i + 1));
        i += 1;
    }
    true
}

/// The bytes of each sorted share.
spec fn array_views(arrays: Seq<[u8; PUBLIC_KEY_LEN]>) -> Seq<Seq<u8>> {
    Seq::new(arrays.len(), |i: int| arrays[i]@)
}

/// The shares in lexicographic order.
fn sort_shares(shares: &[&[u8; PUBLIC_KEY_LEN]]) -> (sorted: Vec<[u8; PUBLIC_KEY_LEN]>)
    ensures
        array_views(sorted@) == share_views(shares@).sort_by(lex_order()),
{
    let ghost views = share_views(shares@);
    let mut sorted: Vec<[u8; PUBLIC_KEY_LEN]> = Vec::new();
    let mut i: usize = 0;
    proof {
        assert(array_views(sorted@) =~= views.take(0));
    }
    while i < shares.len()
        invariant
            i <= shares@.len(),
            sorted@.len() == i,
            views == share_views(shares@),
            sorted_by(array_views(sorted@), lex_order()),
            array_views(sorted@).to_multiset() == views.take(i as int).to_multiset(),
        decreases shares@.len() - i,
    {
        let share: [u8; PUBLIC_KEY_LEN] = *shares[i];
        let mut at: usize = sorted.len();
        while at > 0 && !at_most(&sorted[at - 1], &share)
            invariant
                at <= sorted@.len(),
                forall|k: int| at <= k < sorted@.len() ==> lex_le(share@, #[trigger] sorted@[k]@),
            decreases at,
        {
            proof {
                lemma_lex_connected(share@, sorted@[at - 1]@);
            }
            at = at - 1;
        }
        let ghost before = array_views(sorted@);
        proof {
            lemma_insert_sorted(before, at as int, share@);
            to_multiset_insert(before, at as int, share@);
            assert(views.take(i + 1) =~= views.take(i as int).push(share@));
            to_multiset_build(views.take(i as int), share@);
        }
        sorted.insert(at, share);
        assert(array_views(sorted@) =~= before.insert(at as int, share@));
        i += 1;
    }
    proof {
        assert(views.take(i as int) =~= views);
        lemma_lex_total();
        views.lemma_sort_by_ensures(lex_order());
        lemma_sorted_unique(array_views(sorted@), views.sort_by(lex_order()), lex_order());
    }
    sorted
}

/// A byte string inserted behind all that are at most it, and before the
/// others, leaves the order intact.
proof fn lemma_insert_sorted(s: Seq<Seq<u8>>, at: int, x: Seq<u8>)
    requires
        sorted_by(s, lex_order()),
        0 <= at <= s.len(),
        at > 0 ==> lex_le(s[at - 1], x),
        forall|k: int| at <= k < s.len() ==> lex_le(x, #[trigger] s[k]),
    ensures
        sorted_by(s.insert(at, x), lex_order()),
{
    let t = s.insert(at, x);
    let r = lex_order();
    assert forall|i: int, j: int| 0 <= i < j < t.len() implies #[trigger] r(t[i], t[j]) by {
        let i0 = if i < at {
            i
        } else {
            i - 1
        };
        let j0 = if j < at {
            j
        } else {
            j - 1
        };
        if i != at && j != at {
            assert(r(s[i0], s[j0]));
        } else if j == at {
            if i < at - 1 {
                assert(r(s[i], s[at - 1]));
                lemma_lex_transitive(s[i], s[at - 1], x);
            }
        } else {
            assert(lex_le(x, s[j0]));
        }
    }
}

/// Sorts the shares and joins them, so that both peers get the same bytes.
pub fn sort_and_concat(shares: &[&[u8; PUBLIC_KEY_LEN]]) -> (r: Vec<u8>)
    requires
        PUBLIC_KEY_LEN * shares@.len() <= usize::MAX,
    ensures
        r@ == combined(share_views(shares@)),
        r@.len() == PUBLIC_KEY_LEN * shares@.len(),
{
    let sorted = sort_shares(shares);
    let ghost views = array_views(sorted@);
    proof {
        lemma_lex_total();
        share_views(shares@).lemma_sort_by_ensures(lex_order());
        to_multiset_len(share_views(shares@));
        to_multiset_len(views);
        assert(sorted@.len() == views.len());
        assert(sorted@.len() == shares@.len());
    }
    let mut r: Vec<u8> = Vec::new();
    let mut i: usize = 0;
    assert(views.take(0) =~= Seq::<Seq<u8>>::empty());
    while i < sorted.len()
        invariant
            i <= sorted@.len() == shares@.len(),
            32 * shares@.len() <= usize::MAX,
            views == array_views(sorted@),
            r@ == joined(views.take(i as int)),
            r@.len() == 32 * i,
        decreases sorted@.len() - i,
    {
        assert(views.take(i + 1).drop_last() =~= views.take(i as int));
        bytes::append(&mut r, sorted[i].as_slice());
        i += 1;
    }
    assert(views.take(i as int) =~= views);
    r
}

} // verus!
