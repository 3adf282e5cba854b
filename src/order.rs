//! Orders on records and a stable sort by them.
use vstd::prelude::*;

verus! {

broadcast use vstd::seq_lib::group_to_multiset_ensures;

/// The order of Rust's `str` comparison: character by character, a proper
/// prefix first.
pub open spec fn text_less(a: Seq<char>, b: Seq<char>) -> bool
    decreases a.len(),
{
    if a.len() == 0 {
        b.len() > 0
    } else if b.len() == 0 {
        false
    } else if a[0] != b[0] {
        a[0] < b[0]
    } else {
        text_less(a.drop_first(), b.drop_first())
    }
}

/// `text_less` is transitive.
pub proof fn lemma_text_less_transitive(a: Seq<char>, b: Seq<char>, c: Seq<char>)
    requires
        text_less(a, b),
        text_less(b, c),
    ensures
        text_less(a, c),
    decreases a.len(),
{
    if a.len() > 0 && b.len() > 0 && c.len() > 0 && a[0] == b[0] && b[0] == c[0] {
        lemma_text_less_transitive(a.drop_first(), b.drop_first(), c.drop_first());
    }
}

/// No text comes before itself.
pub proof fn lemma_text_less_irreflexive(a: Seq<char>)
    ensures
        !text_less(a, a),
    decreases a.len(),
{
    if a.len() > 0 {
        lemma_text_less_irreflexive(a.drop_first());
    }
}

/// Of two different texts, one comes before the other.
pub proof fn lemma_text_less_total(a: Seq<char>, b: Seq<char>)
    ensures
        a == b || text_less(a, b) || text_less(b, a),
    decreases a.len(),
{
    if a.len() > 0 && b.len() > 0 && a[0] == b[0] {
        lemma_text_less_total(a.drop_first(), b.drop_first());
        if a.drop_first() == b.drop_first() {
            assert(a.len() == a.drop_first().len() + 1);
            assert(b.len() == b.drop_first().len() + 1);
            assert forall|i: int| 0 <= i < a.len() implies a[i] == b[i] by {
                if i > 0 {
                    assert(a[i] == a.drop_first()[i - 1]);
                    assert(b[i] == b.drop_first()[i - 1]);
                }
            }
            assert(a =~= b);
        }
    } else if a.len() == 0 && b.len() == 0 {
        assert(a =~= b);
    }
}

/// Whatever `a` comes before, every text comes after `a` or before that.
pub proof fn lemma_text_less_connected(a: Seq<char>, b: Seq<char>, c: Seq<char>)
    requires
        text_less(a, b),
    ensures
        text_less(a, c) || text_less(c, b),
{
    lemma_text_less_total(a, c);
    if text_less(c, a) {
        lemma_text_less_transitive(c, a, b);
    }
}

proof fn lemma_text_less_skip(a: Seq<char>, b: Seq<char>, i: int)
    requires
        0 <= i <= a.len(),
        i <= b.len(),
        a.subrange(0, i) == b.subrange(0, i),
    ensures
        text_less(a, b) == text_less(a.skip(i), b.skip(i)),
    decreases i,
{
    if i > 0 {
        assert(a[0] == a.subrange(0, i)[0]);
        assert(b[0] == b.subrange(0, i)[0]);
        assert(a.drop_first().subrange(0, i - 1) =~= a.subrange(0, i).drop_first());
        assert(b.drop_first().subrange(0, i - 1) =~= b.subrange(0, i).drop_first());
        lemma_text_less_skip(a.drop_first(), b.drop_first(), i - 1);
        assert(a.drop_first().skip(i - 1) =~= a.skip(i));
        assert(b.drop_first().skip(i - 1) =~= b.skip(i));
    } else {
        assert(a.skip(0) =~= a);
        assert(b.skip(0) =~= b);
    }
}

/// Whether `a` sorts before `b` as Rust compares strings.
pub fn text_before(a: &str, b: &str) -> (r: bool)
    ensures
        r == text_less(a@, b@),
{
    let n = a.unicode_len();
    let m = b.unicode_len();
    let mut i: usize = 0;
    while i < n && i < m
        invariant
            n == a@.len(),
            m == b@.len(),
            i <= n,
            i <= m,
            a@.subrange(0, i as int) == b@.subrange(0, i as int),
        decreases n - i,
    {
        let x = a.get_char(i);
        let y = b.get_char(i);
        if x != y {
            proof {
                lemma_text_less_skip(a@, b@, i as int);
                assert(a@.skip(i as int)[0] == x);
                assert(b@.skip(i as int)[0] == y);
            }
            return x < y;
        }
        assert(a@.subrange(0, i + 1) =~= a@.subrange(0, i as int).push(x));
        assert(b@.subrange(0, i + 1) =~= b@.subrange(0, i as int).push(y));
        i = i + 1;
    }
    proof {
        lemma_text_less_skip(a@, b@, i as int);
    }
    i < m
}

/// A strict order on the records of a type, by which `sort_stable` orders
/// them.
pub trait SortKey: Sized {
    spec fn key_less(&self, other: &Self) -> bool;

    fn less(&self, other: &Self) -> (r: bool)
        ensures
            r == self.key_less(other),
    ;

    proof fn lemma_key_less_transitive(a: &Self, b: &Self, c: &Self)
        requires
            a.key_less(b),
            b.key_less(c),
        ensures
            a.key_less(c),
    ;

    proof fn lemma_key_less_irreflexive(a: &Self)
        ensures
            !a.key_less(a),
    ;

    /// Records that neither precedes the other are interchangeable: whatever
    /// `a` precedes, every record precedes or follows.
    proof fn lemma_key_less_connected(a: &Self, b: &Self, c: &Self)
        requires
            a.key_less(b),
        ensures
            a.key_less(c) || c.key_less(b),
    ;
}

/// No record of `s` comes before one that precedes it.
pub open spec fn sorted_by_key<T: SortKey>(s: Seq<T>) -> bool {
    forall|i: int, j: int| 0 <= i < j < s.len() ==> !s[j].key_less(&s[i])
}

/// Neither record precedes the other.
pub open spec fn equivalent<T: SortKey>(a: T, b: T) -> bool {
    !a.key_less(&b) && !b.key_less(&a)
}

/// `r` is `v` rearranged, `idx` giving the position in `v` of each record of
/// `r`, with equivalent records in the order they had in `v`.
pub open spec fn stable_arrangement<T: SortKey>(r: Seq<T>, v: Seq<T>, idx: Seq<int>) -> bool {
    &&& idx.len() == r.len()
    &&& r.len() == v.len()
    &&& forall|k: int| 0 <= k < r.len() ==> 0 <= #[trigger] idx[k] < v.len() && r[k] == v[idx[k]]
    &&& forall|a: int, b: int| 0 <= a < b < r.len() ==> idx[a] != idx[b]
    &&& forall|a: int, b: int|
        0 <= a < b < r.len() && equivalent(r[a], r[b]) ==> idx[a] < idx[b]
}

/// The records of `v` in order; records whose keys are equivalent keep their
/// relative order.
pub fn sort_stable<T: SortKey>(v: Vec<T>) -> (r: Vec<T>)
    ensures
        sorted_by_key(r@),
        r@.to_multiset() == v@.to_multiset(),
        exists|idx: Seq<int>| stable_arrangement(r@, v@, idx),
{
    let ghost original = v@;
    let n = v.len();
    let mut rest = v;
    let mut out: Vec<T> = Vec::new();
    let ghost mut out_idx: Seq<int> = Seq::empty();
    let ghost mut rest_idx: Seq<int> = Seq::new(n as nat, |i: int| i);
    while rest.len() > 0
        invariant
            n == original.len(),
            out@.to_multiset().add(rest@.to_multiset()) == original.to_multiset(),
            sorted_by_key(out@),
            forall|i: int, j: int|
                0 <= i < out@.len() && 0 <= j < rest@.len() ==> !rest@[j].key_less(&out@[i]),
            out_idx.len() == out@.len(),
            rest_idx.len() == rest@.len(),
            out@.len() + rest@.len() == n,
            forall|k: int| 0 <= k < out@.len() ==> 0 <= #[trigger] out_idx[k] < n && out@[k] == original[out_idx[k]],
            forall|k: int| 0 <= k < rest@.len() ==> 0 <= #[trigger] rest_idx[k] < n && rest@[k] == original[rest_idx[k]],
            forall|a: int, b: int| 0 <= a < b < rest@.len() ==> rest_idx[a] < rest_idx[b],
            forall|a: int, b: int| 0 <= a < b < out@.len() ==> out_idx[a] != out_idx[b],
            forall|a: int, b: int| 0 <= a < out@.len() && 0 <= b < rest@.len() ==> out_idx[a] != rest_idx[b],
            forall|a: int, b: int|
                0 <= a < b < out@.len() && equivalent(out@[a], out@[b]) ==> out_idx[a] < out_idx[b],
            forall|a: int, b: int|
                0 <= a < out@.len() && 0 <= b < rest@.len() && equivalent(out@[a], rest@[b])
                    ==> out_idx[a] < rest_idx[b],
        decreases rest.len(),
    {
        let mut m: usize = 0;
        let mut k: usize = 1;
        proof {
            T::lemma_key_less_irreflexive(&rest@[0]);
        }
        while k < rest.len()
            invariant
                m < k <= rest@.len(),
                forall|j: int| 0 <= j < k ==> !rest@[j].key_less(&rest@[m as int]),
                forall|j: int| 0 <= j < m ==> rest@[m as int].key_less(&rest@[j]),
            decreases rest@.len() - k,
        {
            if rest[k].less(&rest[m]) {
                proof {
                    T::lemma_key_less_irreflexive(&rest@[k as int]);
                    assert forall|j: int| 0 <= j < k implies !rest@[j].key_less(&rest@[k as int]) by {
                        if rest@[j].key_less(&rest@[k as int]) {
                            T::lemma_key_less_transitive(&rest@[j], &rest@[k as int], &rest@[m as int]);
                        }
                    }
                    assert forall|j: int| 0 <= j < k implies rest@[k as int].key_less(&rest@[j]) by {
                        if j < m {
                            T::lemma_key_less_transitive(&rest@[k as int], &rest@[m as int], &rest@[j]);
                        } else {
                            T::lemma_key_less_connected(&rest@[k as int], &rest@[m as int], &rest@[j]);
                        }
                    }
                }
                m = k;
            }
            k = k + 1;
        }
        let ghost before = rest@;
        let ghost old_out = out@;
        let ghost old_out_idx = out_idx;
        let ghost old_rest_idx = rest_idx;
        let x = rest.remove(m);
        proof {
            assert(before.remove(m as int) == rest@);
            assert(before.to_multiset().count(x) > 0) by {
                assert(before.contains(x));
            }
            out_idx = old_out_idx.push(old_rest_idx[m as int]);
            rest_idx = old_rest_idx.remove(m as int);
        }
        out.push(x);
        proof {
            assert(old_out.push(x) == out@);
            assert(out@.to_multiset().add(rest@.to_multiset()) =~= original.to_multiset());
            let last = out@.len() - 1;
            assert forall|i: int, j: int| 0 <= i < j < out@.len() implies !out@[j].key_less(
                &out@[i],
            ) by {
                if j == last {
                    assert(before[m as int] == x);
                } else {
                    assert(out@[i] == old_out[i]);
                    assert(out@[j] == old_out[j]);
                }
            }
            assert forall|i: int, j: int|
                0 <= i < out@.len() && 0 <= j < rest@.len() implies !rest@[j].key_less(
                &out@[i],
            ) by {
                let jj = if j < m { j } else { j + 1 };
                assert(rest@[j] == before[jj]);
                if i < last {
                    assert(out@[i] == old_out[i]);
                }
            }
            assert forall|k: int| 0 <= k < out@.len() implies 0 <= #[trigger] out_idx[k] < n
                && out@[k] == original[out_idx[k]] by {
                if k < last {
                    assert(out@[k] == old_out[k]);
                    assert(out_idx[k] == old_out_idx[k]);
                }
            }
            assert forall|k: int| 0 <= k < rest@.len() implies 0 <= #[trigger] rest_idx[k] < n
                && rest@[k] == original[rest_idx[k]] by {
                let kk = if k < m { k } else { k + 1 };
                assert(rest@[k] == before[kk]);
                assert(rest_idx[k] == old_rest_idx[kk]);
            }
            assert forall|a: int, b: int| 0 <= a < b < rest@.len() implies rest_idx[a] < rest_idx[b] by {
                let aa = if a < m { a } else { a + 1 };
                let bb = if b < m { b } else { b + 1 };
                assert(rest_idx[a] == old_rest_idx[aa]);
                assert(rest_idx[b] == old_rest_idx[bb]);
            }
            assert forall|a: int, b: int| 0 <= a < b < out@.len() implies out_idx[a] != out_idx[b] by {
                assert(out_idx[a] == old_out_idx[a]);
                if b < last {
                    assert(out_idx[b] == old_out_idx[b]);
                }
            }
            assert forall|a: int, b: int| 0 <= a < out@.len() && 0 <= b < rest@.len() implies out_idx[a]
                != rest_idx[b] by {
                let bb = if b < m { b } else { b + 1 };
                assert(rest_idx[b] == old_rest_idx[bb]);
                if a < last {
                    assert(out_idx[a] == old_out_idx[a]);
                }
            }
            assert forall|a: int, b: int|
                0 <= a < b < out@.len() && equivalent(out@[a], out@[b]) implies out_idx[a]
                < out_idx[b] by {
                assert(out@[a] == old_out[a]);
                assert(out_idx[a] == old_out_idx[a]);
                if b < last {
                    assert(out@[b] == old_out[b]);
                    assert(out_idx[b] == old_out_idx[b]);
                } else {
                    assert(out@[b] == before[m as int]);
                }
            }
            assert forall|a: int, b: int|
                0 <= a < out@.len() && 0 <= b < rest@.len() && equivalent(out@[a], rest@[b])
                    implies out_idx[a] < rest_idx[b] by {
                let bb = if b < m { b } else { b + 1 };
                assert(rest@[b] == before[bb]);
                assert(rest_idx[b] == old_rest_idx[bb]);
                if a < last {
                    assert(out@[a] == old_out[a]);
                    assert(out_idx[a] == old_out_idx[a]);
                } else {
                    assert(out@[a] == before[m as int]);
                    assert(bb > m);
                }
            }
        }
    }
    assert(rest@.to_multiset() =~= vstd::multiset::Multiset::empty());
    assert(out@.to_multiset() =~= out@.to_multiset().add(rest@.to_multiset()));
    assert(stable_arrangement(out@, original, out_idx));
    out
}

} // verus!
