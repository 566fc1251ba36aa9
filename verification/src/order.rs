//! The order in which candidates are listed: by relative path, component by
//! component.
//!
//! For paths made of non-empty names joined by single `/`, comparing
//! component by component is the same as comparing byte by byte with `/`
//! ranked below every other byte, which is how [`path_less`] is defined.

use vstd::prelude::*;

use crate::bytepath::SEP;
use vstd::multiset::Multiset;

verus! {

/// The rank of a byte: `/` below all others, the rest by value.
pub open spec fn order_rank(b: u8) -> int {
    if b == SEP {
        -1
    } else {
        b as int
    }
}

/// Whether `a` sorts strictly before `b`: at the first difference the lower
/// rank wins, and a proper prefix comes first.
pub open spec fn path_less(a: Seq<u8>, b: Seq<u8>) -> bool
    decreases a.len(),
{
    if a.len() == 0 {
        b.len() > 0
    } else if b.len() == 0 {
        false
    } else if a[0] != b[0] {
        order_rank(a[0]) < order_rank(b[0])
    } else {
        path_less(a.drop_first(), b.drop_first())
    }
}

/// Nothing sorts before itself.
pub proof fn lemma_path_less_irreflexive(a: Seq<u8>)
    ensures
        !path_less(a, a),
    decreases a.len(),
{
    if a.len() > 0 {
        lemma_path_less_irreflexive(a.drop_first());
    }
}

/// The order is transitive.
pub proof fn lemma_path_less_transitive(a: Seq<u8>, b: Seq<u8>, c: Seq<u8>)
    requires
        path_less(a, b),
        path_less(b, c),
    ensures
        path_less(a, c),
    decreases a.len(),
{
    if a.len() > 0 && b.len() > 0 && c.len() > 0 {
        if a[0] == b[0] && b[0] == c[0] {
            lemma_path_less_transitive(a.drop_first(), b.drop_first(), c.drop_first());
        }
    }
}

/// Of two different paths, one sorts before the other.
pub proof fn lemma_path_less_total(a: Seq<u8>, b: Seq<u8>)
    ensures
        a == b || path_less(a, b) || path_less(b, a),
    decreases a.len(),
{
    if a.len() > 0 && b.len() > 0 && a[0] == b[0] {
        lemma_path_less_total(a.drop_first(), b.drop_first());
        if a.drop_first() == b.drop_first() {
            assert(a =~= seq![a[0]] + a.drop_first());
            assert(b =~= seq![b[0]] + b.drop_first());
        }
    } else if a.len() == 0 && b.len() == 0 {
        assert(a =~= b);
    }
}

/// Whether `a` sorts strictly before `b`.
pub fn path_less_exec(a: &[u8], b: &[u8]) -> (r: bool)
    ensures
        r == path_less(a@, b@),
{
    let mut i: usize = 0;
    assert(a@.skip(0) =~= a@);
    assert(b@.skip(0) =~= b@);
    while i < a.len() && i < b.len()
        invariant
            i <= a.len(),
            i <= b.len(),
            path_less(a@, b@) == path_less(a@.skip(i as int), b@.skip(i as int)),
        decreases a.len() - i,
    {
        let ghost sa = a@.skip(i as int);
        let ghost sb = b@.skip(i as int);
        assert(sa[0] == a@[i as int]);
        assert(sb[0] == b@[i as int]);
        if a[i] != b[i] {
            let x = a[i];
            let y = b[i];
            let rx: i32 = if x == SEP {
                -1
            } else {
                x as i32
            };
            let ry: i32 = if y == SEP {
                -1
            } else {
                y as i32
            };
            return rx < ry;
        }
        assert(sa.drop_first() =~= a@.skip(i + 1));
        assert(sb.drop_first() =~= b@.skip(i + 1));
        i = i + 1;
    }
    i == a.len() && i < b.len()
}

/// A value listed in path order by its key.
pub trait PathKeyed {
    /// The key it is ordered by.
    spec fn path_key(&self) -> Seq<u8>;

    /// The key's bytes.
    fn path_key_bytes(&self) -> (k: &[u8])
        ensures
            k@ == self.path_key(),
    ;
}

/// Each element's key does not sort before its predecessors'.
pub open spec fn sorted_by_key<T: PathKeyed>(s: Seq<T>) -> bool {
    forall|i: int, j: int| 0 <= i < j < s.len() ==> !path_less(s[j].path_key(), s[i].path_key())
}

/// Sorts by key (selection sort); the result holds the same elements.
pub fn sort_by_path_key<T: PathKeyed>(v: Vec<T>) -> (sorted: Vec<T>)
    ensures
        sorted@.to_multiset() == v@.to_multiset(),
        sorted_by_key(sorted@),
{
    let ghost given = v@;
    let mut rest = v;
    let mut out: Vec<T> = Vec::new();
    proof {
        out@.to_multiset_ensures();
        vstd::multiset::lemma_multiset_empty_len(out@.to_multiset());
        assert(out@.to_multiset().add(rest@.to_multiset()) =~= rest@.to_multiset());
    }
    while rest.len() > 0
        invariant
            out@.to_multiset().add(rest@.to_multiset()) == given.to_multiset(),
            sorted_by_key(out@),
            forall|i: int, j: int|
                0 <= i < out@.len() && 0 <= j < rest@.len() ==> !path_less(
                    rest@[j].path_key(),
                    out@[i].path_key(),
                ),
        decreases rest.len(),
    {
        let mut m: usize = 0;
        let mut k: usize = 1;
        proof {
            lemma_path_less_irreflexive(rest@[0].path_key());
        }
        while k < rest.len()
            invariant
                0 <= m < k <= rest.len(),
                forall|x: int| 0 <= x < k ==> !path_less(rest@[x].path_key(), rest@[m as int].path_key()),
            decreases rest.len() - k,
        {
            if path_less_exec(rest[k].path_key_bytes(), rest[m].path_key_bytes()) {
                proof {
                    assert forall|x: int| 0 <= x < k + 1 implies !path_less(
                        rest@[x].path_key(),
                        rest@[k as int].path_key(),
                    ) by {
                        if x == k {
                            lemma_path_less_irreflexive(rest@[x].path_key());
                        } else if path_less(rest@[x].path_key(), rest@[k as int].path_key()) {
                            lemma_path_less_transitive(
                                rest@[x].path_key(),
                                rest@[k as int].path_key(),
                                rest@[m as int].path_key(),
                            );
                        }
                    }
                }
                m = k;
            }
            k = k + 1;
        }
        let ghost before_rest = rest@;
        let ghost before_out = out@;
        let x = rest.remove(m);
        out.push(x);
        proof {
            before_rest.to_multiset_ensures();
            before_out.to_multiset_ensures();
            assert(before_rest.remove(m as int) == rest@);
            assert(before_rest.remove(m as int).to_multiset() == before_rest.to_multiset().remove(
                before_rest[m as int],
            ));
            assert(out@ == before_out.push(x));
            assert(out@.to_multiset() == before_out.to_multiset().insert(x));
            assert(out@.to_multiset().add(rest@.to_multiset()) =~= before_out.to_multiset().add(
                before_rest.to_multiset(),
            ));
            assert forall|i: int, j: int| 0 <= i < j < out@.len() implies !path_less(
                out@[j].path_key(),
                out@[i].path_key(),
            ) by {
                if j == out@.len() - 1 {
                    assert(out@[j] == before_rest[m as int]);
                    assert(out@[i] == before_out[i]);
                } else {
                    assert(out@[j] == before_out[j]);
                    assert(out@[i] == before_out[i]);
                }
            }
            assert forall|i: int, j: int|
                0 <= i < out@.len() && 0 <= j < rest@.len() implies !path_less(
                rest@[j].path_key(),
                out@[i].path_key(),
            ) by {
                let jj = if j < m {
                    j
                } else {
                    j + 1
                };
                assert(rest@[j] == before_rest[jj]);
                if i == out@.len() - 1 {
                    assert(out@[i] == before_rest[m as int]);
                } else {
                    assert(out@[i] == before_out[i]);
                }
            }
        }
    }
    proof {
        rest@.to_multiset_ensures();
        vstd::multiset::lemma_multiset_empty_len(rest@.to_multiset());
    }
    assert(out@.to_multiset().add(Multiset::<T>::empty()) =~= out@.to_multiset());
    out
}


/// Keys strictly increase along the listing.
pub open spec fn strictly_sorted_by_key<T: PathKeyed>(s: Seq<T>) -> bool {
    forall|i: int, j: int| 0 <= i < j < s.len() ==> path_less(s[i].path_key(), s[j].path_key())
}

/// No two elements of the listing share a key.
pub open spec fn distinct_keys<T: PathKeyed>(s: Seq<T>) -> bool {
    forall|i: int, j: int|
        0 <= i < s.len() && 0 <= j < s.len() && i != j ==> s[i].path_key() != s[j].path_key()
}

/// Rearranging a listing rearranges what a function makes of its elements.
pub proof fn lemma_rearranged_map<A, B>(a: Seq<A>, b: Seq<A>, f: spec_fn(A) -> B)
    requires
        a.to_multiset() == b.to_multiset(),
    ensures
        a.map_values(f).to_multiset() == b.map_values(f).to_multiset(),
    decreases a.len(),
{
    broadcast use vstd::seq_lib::group_to_multiset_ensures;

    vstd::seq_lib::to_multiset_len(a);
    vstd::seq_lib::to_multiset_len(b);
    if a.len() == 0 {
        assert(a.map_values(f) =~= b.map_values(f));
    } else {
        let x = a.last();
        let a0 = a.drop_last();
        assert(a0.push(x) =~= a);
        assert(a.contains(x));
        vstd::seq_lib::to_multiset_contains(a, x);
        vstd::seq_lib::to_multiset_contains(b, x);
        let j = choose|j: int| 0 <= j < b.len() && b[j] == x;
        let b0 = b.remove(j);
        vstd::seq_lib::to_multiset_remove(b, j);
        vstd::seq_lib::to_multiset_build(a0, x);
        assert(a0.to_multiset() =~= a.to_multiset().remove(x)) by {
            broadcast use vstd::multiset::group_multiset_axioms;

        }
        lemma_rearranged_map(a0, b0, f);
        assert(a.map_values(f) =~= a0.map_values(f).push(f(x)));
        assert(b0.map_values(f) =~= b.map_values(f).remove(j));
        vstd::seq_lib::to_multiset_remove(b.map_values(f), j);
        vstd::seq_lib::to_multiset_build(a0.map_values(f), f(x));
        vstd::seq_lib::to_multiset_contains(b.map_values(f), f(x));
        assert(b.map_values(f)[j] == f(x));
        assert(b.map_values(f).contains(f(x)));
        assert(b.map_values(f).to_multiset() =~= b0.map_values(f).to_multiset().insert(f(x))) by {
            broadcast use vstd::multiset::group_multiset_axioms;

        }
    }
}

/// Two listings with the same elements, each with strictly increasing
/// keys, are the same listing.
pub proof fn lemma_strictly_sorted_unique<A>(a: Seq<A>, b: Seq<A>, key: spec_fn(A) -> Seq<u8>)
    requires
        a.to_multiset() == b.to_multiset(),
        forall|i: int, j: int| 0 <= i < j < a.len() ==> path_less(key(a[i]), key(a[j])),
        forall|i: int, j: int| 0 <= i < j < b.len() ==> path_less(key(b[i]), key(b[j])),
    ensures
        a == b,
    decreases a.len(),
{
    broadcast use vstd::seq_lib::group_to_multiset_ensures;

    vstd::seq_lib::to_multiset_len(a);
    vstd::seq_lib::to_multiset_len(b);
    if a.len() == 0 {
        assert(a =~= b);
    } else {
        let n = a.len() - 1;
        let x = a[n];
        let y = b[n];
        assert(a.contains(x));
        vstd::seq_lib::to_multiset_contains(a, x);
        vstd::seq_lib::to_multiset_contains(b, x);
        assert(b.contains(y));
        vstd::seq_lib::to_multiset_contains(b, y);
        vstd::seq_lib::to_multiset_contains(a, y);
        let j = choose|j: int| 0 <= j < b.len() && b[j] == x;
        let i = choose|i: int| 0 <= i < a.len() && a[i] == y;
        if i < n && j < n {
            assert(path_less(key(y), key(x)));
            assert(path_less(key(x), key(y)));
            lemma_path_less_transitive(key(x), key(y), key(x));
            lemma_path_less_irreflexive(key(x));
        }
        if i == n {
            assert(x == y);
        }
        if j == n {
            assert(x == y);
        }
        let a0 = a.drop_last();
        let b0 = b.drop_last();
        assert(a0.push(x) =~= a);
        assert(b0.push(x) =~= b);
        vstd::seq_lib::to_multiset_build(a0, x);
        vstd::seq_lib::to_multiset_build(b0, x);
        assert(a0.to_multiset() =~= b0.to_multiset()) by {
            broadcast use vstd::multiset::group_multiset_axioms;

            assert(a0.to_multiset() =~= a.to_multiset().remove(x));
            assert(b0.to_multiset() =~= b.to_multiset().remove(x));
        }
        lemma_strictly_sorted_unique(a0, b0, key);
        assert(a =~= b);
    }
}

/// A sorted rearrangement of a listing whose keys are distinct has strictly
/// increasing keys.
pub proof fn lemma_sorted_distinct_is_strict<T: PathKeyed>(a: Seq<T>, b: Seq<T>)
    requires
        b.to_multiset() == a.to_multiset(),
        distinct_keys(a),
        sorted_by_key(b),
    ensures
        strictly_sorted_by_key(b),
        distinct_keys(b),
{
    broadcast use vstd::seq_lib::group_to_multiset_ensures;

    assert(a.no_duplicates());
    a.lemma_multiset_has_no_duplicates();
    b.lemma_multiset_has_no_duplicates_conv();
    assert forall|i: int, j: int|
        0 <= i < b.len() && 0 <= j < b.len() && i != j implies b[i].path_key() != b[j].path_key() by {
        vstd::seq_lib::to_multiset_contains(b, b[i]);
        vstd::seq_lib::to_multiset_contains(b, b[j]);
        vstd::seq_lib::to_multiset_contains(a, b[i]);
        vstd::seq_lib::to_multiset_contains(a, b[j]);
        assert(b.contains(b[i]));
        assert(b.contains(b[j]));
        let ki = choose|k: int| 0 <= k < a.len() && a[k] == b[i];
        let kj = choose|k: int| 0 <= k < a.len() && a[k] == b[j];
        assert(b[i] != b[j]);
    }
    assert forall|i: int, j: int| 0 <= i < j < b.len() implies path_less(
        b[i].path_key(),
        b[j].path_key(),
    ) by {
        lemma_path_less_total(b[i].path_key(), b[j].path_key());
    }
}

/// Of two listings with the same elements, both sorted by key, where no two
/// elements share a key, each is the other: the order of a sorted listing
/// does not depend on the order its elements were found in.
pub proof fn law_sorted_listing_is_unique<T: PathKeyed>(a: Seq<T>, b: Seq<T>)
    requires
        a.to_multiset() == b.to_multiset(),
        sorted_by_key(a),
        sorted_by_key(b),
        forall|i: int, j: int| 0 <= i < j < a.len() ==> a[i].path_key() != a[j].path_key(),
    ensures
        a == b,
    decreases a.len(),
{
    broadcast use vstd::seq_lib::group_to_multiset_ensures;

    assert(a.len() == b.len()) by {
        vstd::seq_lib::to_multiset_len(a);
        vstd::seq_lib::to_multiset_len(b);
    }
    if a.len() == 0 {
        assert(a =~= b);
    } else {
        let n = a.len() - 1;
        let x = a[n];
        let y = b[n];
        assert(a.contains(x));
        assert(b.to_multiset().count(x) > 0);
        assert(b.contains(x));
        let j = choose|j: int| 0 <= j < b.len() && b[j] == x;
        assert(b.contains(y));
        assert(a.to_multiset().count(y) > 0);
        assert(a.contains(y));
        let i = choose|i: int| 0 <= i < a.len() && a[i] == y;
        if i < n && j < n {
            assert(!path_less(y.path_key(), x.path_key()));
            assert(!path_less(x.path_key(), y.path_key()));
            lemma_path_less_total(x.path_key(), y.path_key());
            assert(a[i].path_key() == a[n].path_key());
            assert(false);
        }
        assert(x == y);
        let a0 = a.drop_last();
        let b0 = b.drop_last();
        assert(a0.push(x) =~= a);
        assert(b0.push(x) =~= b);
        assert(a0.to_multiset() =~= b0.to_multiset()) by {
            assert(a0.push(x).to_multiset() == a0.to_multiset().insert(x));
            assert(b0.push(x).to_multiset() == b0.to_multiset().insert(x));
            assert forall|z: T| a0.to_multiset().count(z) == b0.to_multiset().count(z) by {
                broadcast use vstd::multiset::group_multiset_axioms;

                assert(a.to_multiset().count(z) == b.to_multiset().count(z));
                assert(a0.to_multiset().insert(x).count(z) == b0.to_multiset().insert(x).count(z));
            }
        }
        assert(sorted_by_key(a0));
        assert(sorted_by_key(b0));
        law_sorted_listing_is_unique(a0, b0);
        assert(a =~= b);
    }
}

} // verus!
