//! The order of names, and sorting by it.
//!
//! Names are ordered as `str` orders them: lexicographically by the bytes of
//! their UTF-8 encoding.

use vstd::prelude::*;
use vstd::utf8::{encode_utf8, encode_utf8_decode_utf8};

verus! {

/// Strict lexicographic order on byte sequences: at the first position where
/// the two differ the smaller byte decides; a proper prefix comes first.
pub open spec fn bytes_lt(a: Seq<u8>, b: Seq<u8>) -> bool
    decreases a.len(),
{
    if b.len() == 0 {
        false
    } else if a.len() == 0 {
        true
    } else if a[0] == b[0] {
        bytes_lt(a.drop_first(), b.drop_first())
    } else {
        a[0] < b[0]
    }
}

/// `a` comes strictly before `b`.
pub open spec fn name_lt(a: Seq<char>, b: Seq<char>) -> bool {
    bytes_lt(encode_utf8(a), encode_utf8(b))
}

/// `a` comes before `b` or is `b`.
pub open spec fn name_le(a: Seq<char>, b: Seq<char>) -> bool {
    a == b || name_lt(a, b)
}

/// Every name comes before each one after it, or equals it.
pub open spec fn ascending(names: Seq<Seq<char>>) -> bool {
    forall|i: int, j: int| 0 <= i < j < names.len() ==> name_le(names[i], names[j])
}

/// Every name comes strictly before each one after it.
pub open spec fn strictly_ascending(names: Seq<Seq<char>>) -> bool {
    forall|i: int, j: int| 0 <= i < j < names.len() ==> name_lt(names[i], names[j])
}

/// `list` holds exactly the names in `names`, each once, in ascending order.
pub open spec fn is_listing(list: Seq<Seq<char>>, names: Set<Seq<char>>) -> bool {
    &&& ascending(list)
    &&& list.no_duplicates()
    &&& list.to_set() == names
}

/// No byte sequence comes before itself.
pub proof fn lemma_bytes_lt_irreflexive(a: Seq<u8>)
    ensures
        !bytes_lt(a, a),
    decreases a.len(),
{
    if a.len() > 0 {
        lemma_bytes_lt_irreflexive(a.drop_first());
    }
}

/// The order of byte sequences is transitive.
pub proof fn lemma_bytes_lt_transitive(a: Seq<u8>, b: Seq<u8>, c: Seq<u8>)
    requires
        bytes_lt(a, b),
        bytes_lt(b, c),
    ensures
        bytes_lt(a, c),
    decreases a.len(),
{
    if a.len() > 0 && a[0] == b[0] && b[0] == c[0] {
        lemma_bytes_lt_transitive(a.drop_first(), b.drop_first(), c.drop_first());
    }
}

/// Of two different byte sequences one comes before the other.
pub proof fn lemma_bytes_lt_total(a: Seq<u8>, b: Seq<u8>)
    ensures
        bytes_lt(a, b) || a == b || bytes_lt(b, a),
    decreases a.len(),
{
    if a.len() > 0 && b.len() > 0 && a[0] == b[0] {
        lemma_bytes_lt_total(a.drop_first(), b.drop_first());
        if a.drop_first() == b.drop_first() {
            assert(a =~= seq![a[0]] + a.drop_first());
            assert(b =~= seq![b[0]] + b.drop_first());
        }
    } else if a.len() == 0 && b.len() == 0 {
        assert(a =~= b);
    }
}

/// Two names with the same encoding are the same name.
pub proof fn lemma_encoding_injective(a: Seq<char>, b: Seq<char>)
    requires
        encode_utf8(a) == encode_utf8(b),
    ensures
        a == b,
{
    encode_utf8_decode_utf8(a);
    encode_utf8_decode_utf8(b);
}

/// No name comes before itself.
pub proof fn lemma_name_lt_irreflexive(a: Seq<char>)
    ensures
        !name_lt(a, a),
{
    lemma_bytes_lt_irreflexive(encode_utf8(a));
}

/// The order is transitive.
pub proof fn lemma_name_lt_transitive(a: Seq<char>, b: Seq<char>, c: Seq<char>)
    requires
        name_lt(a, b),
        name_lt(b, c),
    ensures
        name_lt(a, c),
{
    lemma_bytes_lt_transitive(encode_utf8(a), encode_utf8(b), encode_utf8(c));
}

/// Of two different names one comes before the other.
pub proof fn lemma_name_lt_total(a: Seq<char>, b: Seq<char>)
    ensures
        name_lt(a, b) || a == b || name_lt(b, a),
{
    lemma_bytes_lt_total(encode_utf8(a), encode_utf8(b));
    if encode_utf8(a) == encode_utf8(b) {
        lemma_encoding_injective(a, b);
    }
}

/// Of two names at most one comes before the other.
pub proof fn lemma_name_lt_asymmetric(a: Seq<char>, b: Seq<char>)
    requires
        name_lt(a, b),
    ensures
        !name_lt(b, a),
        a != b,
{
    if name_lt(b, a) {
        lemma_name_lt_transitive(a, b, a);
    }
    lemma_name_lt_irreflexive(a);
}

/// Where two byte sequences agree at `i`, what follows `i` decides as what
/// starts at `i` does.
proof fn lemma_bytes_lt_skip(a: Seq<u8>, b: Seq<u8>, i: int)
    requires
        0 <= i < a.len(),
        i < b.len(),
        a[i] == b[i],
    ensures
        bytes_lt(a.skip(i), b.skip(i)) == bytes_lt(a.skip(i + 1), b.skip(i + 1)),
{
    assert(a.skip(i).drop_first() =~= a.skip(i + 1));
    assert(b.skip(i).drop_first() =~= b.skip(i + 1));
}

/// Whether `a` comes strictly before `b`.
pub fn precedes(a: &str, b: &str) -> (r: bool)
    ensures
        r == name_lt(a@, b@),
{
    let x = a.as_bytes();
    let y = b.as_bytes();
    let mut i: usize = 0;
    proof {
        assert(x@.skip(0) =~= x@);
        assert(y@.skip(0) =~= y@);
    }
    while i < x.len() && i < y.len()
        invariant
            x@ == encode_utf8(a@),
            y@ == encode_utf8(b@),
            i <= x@.len(),
            i <= y@.len(),
            bytes_lt(x@, y@) == bytes_lt(x@.skip(i as int), y@.skip(i as int)),
        decreases x@.len() - i,
    {
        if x[i] != y[i] {
            assert(x@.skip(i as int)[0] == x@[i as int]);
            assert(y@.skip(i as int)[0] == y@[i as int]);
            return x[i] < y[i];
        }
        proof {
            lemma_bytes_lt_skip(x@, y@, i as int);
        }
        i += 1;
    }
    i < y.len()
}

/// Whether `a` and `b` are the same name.
pub fn same_name(a: &str, b: &str) -> (r: bool)
    ensures
        r == (a@ == b@),
{
    let x = a.as_bytes();
    let y = b.as_bytes();
    if x.len() != y.len() {
        return false;
    }
    let mut i: usize = 0;
    while i < x.len()
        invariant
            x@ == encode_utf8(a@),
            y@ == encode_utf8(b@),
            i <= x@.len(),
            x@.len() == y@.len(),
            forall|k: int| 0 <= k < i ==> x@[k] == y@[k],
        decreases x@.len() - i,
    {
        if x[i] != y[i] {
            return false;
        }
        i += 1;
    }
    proof {
        assert(x@ =~= y@);
        lemma_encoding_injective(a@, b@);
    }
    true
}

/// `a` before or equal to `b`, and `b` before or equal to `c`, put `a` before
/// or equal to `c`.
pub proof fn lemma_name_le_transitive(a: Seq<char>, b: Seq<char>, c: Seq<char>)
    requires
        name_le(a, b),
        name_le(b, c),
    ensures
        name_le(a, c),
{
    if a != b && b != c {
        lemma_name_lt_transitive(a, b, c);
    }
}

/// An ascending sequence stays ascending when `name` is put after the names
/// that come strictly before it and before those that do not.
proof fn lemma_insert_ascending(names: Seq<Seq<char>>, p: int, name: Seq<char>)
    requires
        ascending(names),
        0 <= p <= names.len(),
        forall|k: int| 0 <= k < p ==> name_lt(names[k], name),
        p < names.len() ==> !name_lt(names[p], name),
    ensures
        ascending(names.insert(p, name)),
{
    let after = names.insert(p, name);
    assert forall|i: int, j: int| 0 <= i < j < after.len() implies name_le(after[i], after[j]) by {
        if j == p {
            assert(after[i] == names[i]);
        } else if i == p {
            assert(after[j] == names[j - 1]);
            lemma_name_lt_total(names[p], name);
            if j - 1 > p {
                assert(name_le(names[p], names[j - 1]));
            }
            lemma_name_le_transitive(name, names[p], names[j - 1]);
        } else {
            let i0 = if i < p { i } else { i - 1 };
            let j0 = if j < p { j } else { j - 1 };
            assert(after[i] == names[i0]);
            assert(after[j] == names[j0]);
            assert(name_le(names[i0], names[j0]));
        }
    }
}

/// Putting a value into a sequence adds it once to what the sequence holds.
proof fn lemma_insert_to_multiset<A>(s: Seq<A>, p: int, a: A)
    requires
        0 <= p <= s.len(),
    ensures
        s.insert(p, a).to_multiset() == s.to_multiset().insert(a),
{
    broadcast use vstd::multiset::group_multiset_axioms;

    let t = s.insert(p, a);
    assert(t.remove(p) =~= s);
    assert(t[p] == a);
    vstd::seq_lib::to_multiset_remove(t, p);
    t.to_multiset_ensures();
    assert(t.contains(a));
    assert(t.to_multiset() =~= s.to_multiset().insert(a));
}

/// The given names in ascending order: each as often as it was given.
pub fn sort_names(names: Vec<String>) -> (r: Vec<String>)
    ensures
        ascending(r.deep_view()),
        r.deep_view().to_multiset() == names.deep_view().to_multiset(),
{
    broadcast use vstd::multiset::group_multiset_axioms;

    let mut rest = names;
    let mut r: Vec<String> = Vec::new();
    proof {
        assert(r.deep_view() =~= Seq::<Seq<char>>::empty());
        r.deep_view().to_multiset_ensures();
        assert(r.deep_view().to_multiset() =~= vstd::multiset::Multiset::<Seq<char>>::empty());
        assert(r.deep_view().to_multiset().add(rest.deep_view().to_multiset())
            =~= names.deep_view().to_multiset());
    }
    while rest.len() > 0
        invariant
            ascending(r.deep_view()),
            r.deep_view().to_multiset().add(rest.deep_view().to_multiset())
                == names.deep_view().to_multiset(),
        decreases rest@.len(),
    {
        let ghost rest_before = rest.deep_view();
        let ghost r_before = r.deep_view();
        let name = rest.pop().unwrap();
        let mut p: usize = 0;
        while p < r.len() && precedes(r[p].as_str(), name.as_str())
            invariant
                p <= r@.len(),
                forall|k: int| 0 <= k < p ==> name_lt(r@[k]@, name@),
            decreases r@.len() - p,
        {
            p += 1;
        }
        proof {
            assert(rest_before =~= rest.deep_view().push(name@));
            vstd::seq_lib::to_multiset_build(rest.deep_view(), name@);
            lemma_insert_ascending(r_before, p as int, name@);
            lemma_insert_to_multiset(r_before, p as int, name@);
        }
        r.insert(p, name);
        proof {
            assert(r.deep_view() =~= r_before.insert(p as int, name@));
            assert(r.deep_view().to_multiset().add(rest.deep_view().to_multiset())
                =~= r_before.to_multiset().add(rest_before.to_multiset()));
        }
    }
    proof {
        assert(rest.deep_view() =~= Seq::<Seq<char>>::empty());
        rest.deep_view().to_multiset_ensures();
        assert(rest.deep_view().to_multiset() =~= vstd::multiset::Multiset::<Seq<char>>::empty());
        assert(r.deep_view().to_multiset().add(rest.deep_view().to_multiset())
            =~= r.deep_view().to_multiset());
    }
    r
}

/// Sorting names that are pairwise different gives the listing of those
/// names.
pub proof fn lemma_sorted_distinct(given: Seq<Seq<char>>, sorted: Seq<Seq<char>>)
    requires
        given.no_duplicates(),
        ascending(sorted),
        sorted.to_multiset() == given.to_multiset(),
    ensures
        is_listing(sorted, given.to_set()),
        sorted.len() == given.len(),
{
    given.to_multiset_ensures();
    sorted.to_multiset_ensures();
    given.lemma_multiset_has_no_duplicates();
    sorted.lemma_multiset_has_no_duplicates_conv();
    assert forall|name: Seq<char>| sorted.to_set().contains(name) <==> given.to_set().contains(
        name,
    ) by {
        assert(sorted.contains(name) <==> sorted.to_multiset().count(name) > 0);
        assert(given.contains(name) <==> given.to_multiset().count(name) > 0);
    }
    assert(sorted.to_set() =~= given.to_set());
}

/// In a listing every name comes strictly before each one after it.
pub proof fn lemma_listing_strict(list: Seq<Seq<char>>, names: Set<Seq<char>>)
    requires
        is_listing(list, names),
    ensures
        strictly_ascending(list),
{
    assert forall|i: int, j: int| 0 <= i < j < list.len() implies name_lt(list[i], list[j]) by {
        assert(name_le(list[i], list[j]));
        assert(list[i] != list[j]);
    }
}

/// A set of names has one listing only.
pub proof fn lemma_listing_unique(a: Seq<Seq<char>>, b: Seq<Seq<char>>, names: Set<Seq<char>>)
    requires
        is_listing(a, names),
        is_listing(b, names),
    ensures
        a == b,
{
    lemma_listing_strict(a, names);
    lemma_listing_strict(b, names);
    lemma_strictly_ascending_unique(a, b);
}

/// Two strictly ascending sequences of the same names are the same sequence.
proof fn lemma_strictly_ascending_unique(a: Seq<Seq<char>>, b: Seq<Seq<char>>)
    requires
        strictly_ascending(a),
        strictly_ascending(b),
        a.to_set() == b.to_set(),
    ensures
        a == b,
    decreases a.len(),
{
    if a.len() == 0 {
        if b.len() > 0 {
            assert(b.to_set().contains(b[0]));
            assert(a.contains(b[0]));
        }
        assert(a =~= b);
    } else if b.len() == 0 {
        assert(a.to_set().contains(a[0]));
        assert(b.contains(a[0]));
    } else {
        // The first name of each is the least name of the common set.
        assert(a.to_set().contains(a[0]));
        assert(b.contains(a[0]));
        let j = choose|j: int| 0 <= j < b.len() && b[j] == a[0];
        assert(b.to_set().contains(b[0]));
        assert(a.contains(b[0]));
        let i = choose|i: int| 0 <= i < a.len() && a[i] == b[0];
        if i > 0 && j > 0 {
            lemma_name_lt_asymmetric(a[0], a[i]);
        }
        if i > 0 && j == 0 {
            lemma_name_lt_irreflexive(a[0]);
        }
        if i == 0 && j > 0 {
            lemma_name_lt_irreflexive(b[0]);
        }
        assert(a[0] == b[0]);
        let ra = a.drop_first();
        let rb = b.drop_first();
        assert forall|x: Seq<char>| ra.to_set().contains(x) <==> rb.to_set().contains(x) by {
            if ra.contains(x) {
                let k = choose|k: int| 0 <= k < ra.len() && ra[k] == x;
                assert(a[k + 1] == x);
                lemma_name_lt_asymmetric(a[0], a[k + 1]);
                assert(a.to_set().contains(x));
                assert(b.contains(x));
                let m = choose|m: int| 0 <= m < b.len() && b[m] == x;
                assert(rb[m - 1] == x);
            }
            if rb.contains(x) {
                let k = choose|k: int| 0 <= k < rb.len() && rb[k] == x;
                assert(b[k + 1] == x);
                lemma_name_lt_asymmetric(b[0], b[k + 1]);
                assert(b.to_set().contains(x));
                assert(a.contains(x));
                let m = choose|m: int| 0 <= m < a.len() && a[m] == x;
                assert(ra[m - 1] == x);
            }
        }
        assert(ra.to_set() =~= rb.to_set());
        assert forall|p: int, q: int| 0 <= p < q < ra.len() implies name_lt(ra[p], ra[q]) by {
            assert(name_lt(a[p + 1], a[q + 1]));
        }
        assert forall|p: int, q: int| 0 <= p < q < rb.len() implies name_lt(rb[p], rb[q]) by {
            assert(name_lt(b[p + 1], b[q + 1]));
        }
        lemma_strictly_ascending_unique(ra, rb);
        assert(a =~= seq![a[0]] + ra);
        assert(b =~= seq![b[0]] + rb);
    }
}

} // verus!
