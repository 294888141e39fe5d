//! Sorting texts into lexicographic order.

use crate::text::{
    lemma_lex_le_connected, lemma_lex_le_transitive, lemma_lex_order_is_total, lex_le, lex_order,
    text_le,
};
use vstd::prelude::*;
use vstd::relations::sorted_by;
use vstd::seq_lib::*;

verus! {

/// The texts that a sequence of strings holds.
pub open spec fn texts_of(strings: Seq<String>) -> Seq<Seq<char>> {
    strings.map_values(|s: String| s@)
}

/// Whether texts stand in lexicographic order, equal ones side by side.
pub open spec fn is_sorted(texts: Seq<Seq<char>>) -> bool {
    forall|i: int, j: int| 0 <= i < j < texts.len() ==> lex_le(#[trigger] texts[i], #[trigger] texts[j])
}

/// Texts in lexicographic order are in one order only: two sorted sequences
/// that hold the same texts equally often are the same sequence.
pub proof fn lemma_sorted_order_is_unique(a: Seq<Seq<char>>, b: Seq<Seq<char>>)
    requires
        is_sorted(a),
        is_sorted(b),
        a.to_multiset() == b.to_multiset(),
    ensures
        a == b,
{
    lemma_lex_order_is_total();
    assert(sorted_by(a, lex_order()));
    assert(sorted_by(b, lex_order()));
    lemma_sorted_unique(a, b, lex_order());
}

/// Whether every index in `order` points into `texts`.
spec fn in_range(texts: Seq<String>, order: Seq<usize>) -> bool {
    forall|k: int| 0 <= k < order.len() ==> #[trigger] order[k] < texts.len()
}

/// The texts that the indices in `order` point at, in that order.
spec fn picked(texts: Seq<String>, order: Seq<usize>) -> Seq<Seq<char>> {
    Seq::new(order.len(), |k: int| texts[order[k] as int]@)
}

/// Picking with one more index picks one more text.
proof fn lemma_picked_push(texts: Seq<String>, order: Seq<usize>, index: usize)
    ensures
        picked(texts, order.push(index)) == picked(texts, order).push(texts[index as int]@),
        picked(texts, order.push(index)).to_multiset() == picked(texts, order).to_multiset().insert(
            texts[index as int]@,
        ),
{
    broadcast use group_to_multiset_ensures;

    assert(picked(texts, order.push(index)) =~= picked(texts, order).push(texts[index as int]@));
}

/// Merges two runs of indices, each sorted by the text it points at, into
/// one.
fn merge(texts: &Vec<String>, left: &Vec<usize>, right: &Vec<usize>) -> (out: Vec<usize>)
    requires
        in_range(texts@, left@),
        in_range(texts@, right@),
        is_sorted(picked(texts@, left@)),
        is_sorted(picked(texts@, right@)),
    ensures
        in_range(texts@, out@),
        is_sorted(picked(texts@, out@)),
        picked(texts@, out@).to_multiset() == picked(texts@, left@).to_multiset().add(
            picked(texts@, right@).to_multiset(),
        ),
{
    let mut out: Vec<usize> = Vec::new();
    let mut i: usize = 0;
    let mut j: usize = 0;
    assert(picked(texts@, left@.subrange(0, 0)) =~= Seq::<Seq<char>>::empty());
    assert(picked(texts@, right@.subrange(0, 0)) =~= Seq::<Seq<char>>::empty());
    assert(picked(texts@, out@) =~= Seq::<Seq<char>>::empty());
    assert(picked(texts@, out@).to_multiset() =~= picked(
        texts@,
        left@.subrange(0, 0),
    ).to_multiset().add(picked(texts@, right@.subrange(0, 0)).to_multiset())) by {
        broadcast use group_to_multiset_ensures;

    }
    while i < left.len() || j < right.len()
        invariant
            i <= left.len(),
            j <= right.len(),
            in_range(texts@, left@),
            in_range(texts@, right@),
            is_sorted(picked(texts@, left@)),
            is_sorted(picked(texts@, right@)),
            in_range(texts@, out@),
            is_sorted(picked(texts@, out@)),
            picked(texts@, out@).to_multiset() == picked(
                texts@,
                left@.subrange(0, i as int),
            ).to_multiset().add(picked(texts@, right@.subrange(0, j as int)).to_multiset()),
            forall|k: int, m: int|
                0 <= k < out.len() && i <= m < left.len() ==> lex_le(
                    #[trigger] picked(texts@, out@)[k],
                    #[trigger] picked(texts@, left@)[m],
                ),
            forall|k: int, m: int|
                0 <= k < out.len() && j <= m < right.len() ==> lex_le(
                    #[trigger] picked(texts@, out@)[k],
                    #[trigger] picked(texts@, right@)[m],
                ),
        decreases left.len() - i + right.len() - j,
    {
        let from_left = if i == left.len() {
            false
        } else if j == right.len() {
            true
        } else {
            text_le(texts[left[i]].as_str(), texts[right[j]].as_str())
        };
        let ghost before = out@;
        let ghost l = picked(texts@, left@);
        let ghost r = picked(texts@, right@);
        if from_left {
            let index = left[i];
            out.push(index);
            proof {
                lemma_picked_push(texts@, before, index);
                lemma_picked_push(texts@, left@.subrange(0, i as int), index);
                assert(left@.subrange(0, i + 1) =~= left@.subrange(0, i as int).push(index));
                let now = picked(texts@, out@);
                assert(now[before.len() as int] == l[i as int]);
                assert forall|k: int, m: int| 0 <= k < out.len() && i + 1 <= m < left.len() implies lex_le(
                    #[trigger] now[k],
                    #[trigger] l[m],
                ) by {
                    if k < before.len() {
                        assert(now[k] == picked(texts@, before)[k]);
                    } else {
                        assert(lex_le(l[i as int], l[m]));
                    }
                }
                assert forall|k: int, m: int| 0 <= k < out.len() && j <= m < right.len() implies lex_le(
                    #[trigger] now[k],
                    #[trigger] r[m],
                ) by {
                    if k < before.len() {
                        assert(now[k] == picked(texts@, before)[k]);
                    } else {
                        assert(lex_le(l[i as int], r[j as int]));
                        if j < m {
                            assert(lex_le(r[j as int], r[m]));
                            lemma_lex_le_transitive(l[i as int], r[j as int], r[m]);
                        }
                    }
                }
                assert forall|a: int, b: int| 0 <= a < b < now.len() implies lex_le(
                    #[trigger] now[a],
                    #[trigger] now[b],
                ) by {
                    assert(now[a] == picked(texts@, before)[a]);
                    if b < before.len() {
                        assert(now[b] == picked(texts@, before)[b]);
                    } else {
                        assert(lex_le(picked(texts@, before)[a], l[i as int]));
                    }
                }
                assert(now.to_multiset() =~= picked(
                    texts@,
                    left@.subrange(0, i + 1),
                ).to_multiset().add(picked(texts@, right@.subrange(0, j as int)).to_multiset()));
            }
            i = i + 1;
        } else {
            let index = right[j];
            out.push(index);
            proof {
                lemma_picked_push(texts@, before, index);
                lemma_picked_push(texts@, right@.subrange(0, j as int), index);
                assert(right@.subrange(0, j + 1) =~= right@.subrange(0, j as int).push(index));
                let now = picked(texts@, out@);
                assert(now[before.len() as int] == r[j as int]);
                if i < left.len() {
                    lemma_lex_le_connected(l[i as int], r[j as int]);
                    assert(lex_le(r[j as int], l[i as int]));
                }
                assert forall|k: int, m: int| 0 <= k < out.len() && j + 1 <= m < right.len() implies lex_le(
                    #[trigger] now[k],
                    #[trigger] r[m],
                ) by {
                    if k < before.len() {
                        assert(now[k] == picked(texts@, before)[k]);
                    } else {
                        assert(lex_le(r[j as int], r[m]));
                    }
                }
                assert forall|k: int, m: int| 0 <= k < out.len() && i <= m < left.len() implies lex_le(
                    #[trigger] now[k],
                    #[trigger] l[m],
                ) by {
                    if k < before.len() {
                        assert(now[k] == picked(texts@, before)[k]);
                    } else {
                        if i < m {
                            assert(lex_le(l[i as int], l[m]));
                            lemma_lex_le_transitive(r[j as int], l[i as int], l[m]);
                        }
                    }
                }
                assert forall|a: int, b: int| 0 <= a < b < now.len() implies lex_le(
                    #[trigger] now[a],
                    #[trigger] now[b],
                ) by {
                    assert(now[a] == picked(texts@, before)[a]);
                    if b < before.len() {
                        assert(now[b] == picked(texts@, before)[b]);
                    } else {
                        assert(lex_le(picked(texts@, before)[a], r[j as int]));
                    }
                }
                assert(now.to_multiset() =~= picked(
                    texts@,
                    left@.subrange(0, i as int),
                ).to_multiset().add(picked(texts@, right@.subrange(0, j + 1)).to_multiset()));
            }
            j = j + 1;
        }
    }
    assert(left@.subrange(0, i as int) =~= left@);
    assert(right@.subrange(0, j as int) =~= right@);
    out
}

/// The indices from `lo` up to `hi`, sorted by the text each points at.
fn sort_range(texts: &Vec<String>, lo: usize, hi: usize) -> (out: Vec<usize>)
    requires
        lo <= hi <= texts.len(),
    ensures
        in_range(texts@, out@),
        is_sorted(picked(texts@, out@)),
        picked(texts@, out@).to_multiset() == texts_of(texts@).subrange(
            lo as int,
            hi as int,
        ).to_multiset(),
    decreases hi - lo,
{
    let ghost all = texts_of(texts@);
    if hi - lo < 2 {
        let mut out: Vec<usize> = Vec::new();
        if lo < hi {
            out.push(lo);
        }
        assert(picked(texts@, out@) =~= all.subrange(lo as int, hi as int));
        out
    } else {
        let mid = lo + (hi - lo) / 2;
        let left = sort_range(texts, lo, mid);
        let right = sort_range(texts, mid, hi);
        proof {
            assert(all.subrange(lo as int, hi as int) =~= all.subrange(lo as int, mid as int)
                + all.subrange(mid as int, hi as int));
            lemma_multiset_commutative(
                all.subrange(lo as int, mid as int),
                all.subrange(mid as int, hi as int),
            );
        }
        merge(texts, &left, &right)
    }
}

/// The given texts in lexicographic order.
pub fn sort_texts(texts: &Vec<String>) -> (out: Vec<String>)
    ensures
        is_sorted(texts_of(out@)),
        texts_of(out@).to_multiset() == texts_of(texts@).to_multiset(),
{
    let order = sort_range(texts, 0, texts.len());
    let ghost all = texts_of(texts@);
    assert(all.subrange(0, texts.len() as int) =~= all);
    let mut out: Vec<String> = Vec::new();
    let mut k: usize = 0;
    while k < order.len()
        invariant
            k <= order.len(),
            out.len() == k,
            in_range(texts@, order@),
            texts_of(out@) == picked(texts@, order@).subrange(0, k as int),
        decreases order.len() - k,
    {
        let ghost before = out@;
        let text = texts[order[k]].clone();
        out.push(text);
        proof {
            let want = picked(texts@, order@).subrange(0, k + 1);
            assert(texts_of(out@).len() == want.len());
            assert forall|n: int| 0 <= n < want.len() implies texts_of(out@)[n] == want[n] by {
                if n < k {
                    assert(texts_of(before)[n] == picked(texts@, order@).subrange(0, k as int)[n]);
                }
            }
            assert(texts_of(out@) =~= want);
        }
        k = k + 1;
    }
    assert(picked(texts@, order@).subrange(0, k as int) =~= picked(texts@, order@));
    out
}

} // verus!
