//! What holds of discovery and of plans whatever the listing and the
//! pattern.

use crate::discover::{
    candidate_paths, discovered_paths, is_discovery, is_selected, selected_paths, selection,
    Candidate, Entry, MAX_CANDIDATES,
};
use crate::number::{lemma_six_digits_below_a_million, parsed_number, zero_padded};
use crate::options::Options;
use crate::path::join_path;
use crate::pattern::regex_first_capture;
use crate::plan::{captures_number, is_plan, planned, PlannedRename, INDEX_GROUP};
use crate::sort::lemma_sorted_order_is_unique;
use crate::text::{lemma_lex_order_is_total, lex_order};
use vstd::prelude::*;
use vstd::seq_lib::*;

verus! {

/// The selected paths of a listing followed by another are those of the
/// first followed by those of the second.
proof fn lemma_selected_paths_add(re: regex::Regex, a: Seq<Entry>, b: Seq<Entry>)
    ensures
        selected_paths(re, a + b) == selected_paths(re, a) + selected_paths(re, b),
{
    Seq::filter_distributes_over_add(a, b, selection(re));
    assert(selected_paths(re, a + b) =~= selected_paths(re, a) + selected_paths(re, b));
}

/// Listings that hold the same entries equally often, in whatever order,
/// have the same selected paths equally often.
pub proof fn lemma_selection_ignores_order(re: regex::Regex, a: Seq<Entry>, b: Seq<Entry>)
    requires
        a.to_multiset() == b.to_multiset(),
    ensures
        selected_paths(re, a).to_multiset() == selected_paths(re, b).to_multiset(),
    decreases a.len(),
{
    broadcast use vstd::multiset::group_multiset_axioms;

    to_multiset_len(a);
    to_multiset_len(b);
    if a.len() == 0 {
        assert(a =~= b);
    } else {
        let x = a.last();
        let front = a.drop_last();
        assert(a =~= front.push(x));
        to_multiset_build(front, x);
        to_multiset_contains(b, x);
        assert(b.to_multiset().count(x) > 0);
        let j = choose|j: int| 0 <= j < b.len() && b[j] == x;
        let left = b.subrange(0, j);
        let right = b.subrange(j + 1, b.len() as int);
        to_multiset_remove(b, j);
        assert(front.to_multiset() =~= b.remove(j).to_multiset());
        lemma_selection_ignores_order(re, front, b.remove(j));
        let one = seq![x];
        assert(a =~= front + one);
        assert(b =~= left + one + right);
        lemma_selected_paths_add(re, front, one);
        lemma_selected_paths_add(re, left, one);
        lemma_selected_paths_add(re, left + one, right);
        lemma_selected_paths_add(re, left, right);
        let sf = selected_paths(re, front);
        let so = selected_paths(re, one);
        let sl = selected_paths(re, left);
        let sr = selected_paths(re, right);
        lemma_multiset_commutative(sf, so);
        lemma_multiset_commutative(sl, so);
        lemma_multiset_commutative(sl + so, sr);
        lemma_multiset_commutative(sl, sr);
        assert(selected_paths(re, a).to_multiset() =~= selected_paths(re, b).to_multiset());
    }
}

/// The candidates do not depend on the order of the listing: two listings
/// of the same entries give the same paths in the same order, each with the
/// same file name.
pub proof fn lemma_discovery_ignores_listing_order(
    re: regex::Regex,
    first: Seq<Entry>,
    second: Seq<Entry>,
    from_first: Seq<Candidate>,
    from_second: Seq<Candidate>,
)
    requires
        first.to_multiset() == second.to_multiset(),
        is_discovery(re, first, from_first),
        is_discovery(re, second, from_second),
    ensures
        candidate_paths(from_first) == candidate_paths(from_second),
        from_first.len() == from_second.len(),
        forall|i: int|
            0 <= i < from_first.len() ==> {
                &&& (#[trigger] from_first[i]).path@ == from_second[i].path@
                &&& from_first[i].name@ == from_second[i].name@
            },
{
    lemma_selection_ignores_order(re, first, second);
    lemma_sorted_order_is_unique(candidate_paths(from_first), candidate_paths(from_second));
    assert(candidate_paths(from_first).len() == from_first.len());
    assert(candidate_paths(from_second).len() == from_second.len());
    assert forall|i: int| 0 <= i < from_first.len() implies {
        &&& (#[trigger] from_first[i]).path@ == from_second[i].path@
        &&& from_first[i].name@ == from_second[i].name@
    } by {
        assert(candidate_paths(from_first)[i] == candidate_paths(from_second)[i]);
        assert(from_first[i].well_formed());
        assert(from_second[i].well_formed());
    }
}

/// The candidates are exactly the selected entries: a path is the path of
/// a candidate if and only if the listing holds a regular file with that
/// path whose file name holds a match for the pattern.
pub proof fn lemma_candidates_are_the_selected_entries(
    re: regex::Regex,
    entries: Seq<Entry>,
    candidates: Seq<Candidate>,
    path: Seq<char>,
)
    requires
        is_discovery(re, entries, candidates),
    ensures
        (exists|k: int| 0 <= k < candidates.len() && (#[trigger] candidates[k]).path@ == path) <==> (
        exists|i: int|
            0 <= i < entries.len() && is_selected(re, #[trigger] entries[i]) && entries[i].path@
                == path),
{
    let found = candidate_paths(candidates);
    let kept = entries.filter(selection(re));
    let chosen = selected_paths(re, entries);
    to_multiset_contains(found, path);
    to_multiset_contains(chosen, path);
    if exists|k: int| 0 <= k < candidates.len() && (#[trigger] candidates[k]).path@ == path {
        let k = choose|k: int| 0 <= k < candidates.len() && (#[trigger] candidates[k]).path@ == path;
        assert(found[k] == path);
        assert(found.contains(path));
        let n = choose|n: int| 0 <= n < chosen.len() && chosen[n] == path;
        entries.lemma_filter_pred(selection(re), n);
        lemma_filter_source(entries, selection(re), n);
        let i = choose|i: int| 0 <= i < entries.len() && entries[i] == kept[n];
        assert(is_selected(re, entries[i]) && entries[i].path@ == path);
    }
    if exists|i: int|
        0 <= i < entries.len() && is_selected(re, #[trigger] entries[i]) && entries[i].path@ == path {
        let i = choose|i: int|
            0 <= i < entries.len() && is_selected(re, #[trigger] entries[i]) && entries[i].path@
                == path;
        entries.lemma_filter_contains(selection(re), i);
        let n = choose|n: int| 0 <= n < kept.len() && kept[n] == entries[i];
        assert(chosen[n] == path);
        assert(chosen.contains(path));
        let k = choose|k: int| 0 <= k < found.len() && found[k] == path;
        assert(candidates[k].path@ == path);
    }
}

/// Whatever a filtered sequence holds, the sequence itself holds.
proof fn lemma_filter_source<A>(s: Seq<A>, pred: spec_fn(A) -> bool, n: int)
    requires
        0 <= n < s.filter(pred).len(),
    ensures
        exists|i: int| 0 <= i < s.len() && s[i] == s.filter(pred)[n],
    decreases s.len(),
{
    reveal(Seq::filter);
    if s.len() > 0 {
        let front = s.drop_last();
        if n < front.filter(pred).len() {
            lemma_filter_source(front, pred, n);
            let i = choose|i: int| 0 <= i < front.len() && front[i] == front.filter(pred)[n];
            assert(s[i] == s.filter(pred)[n]);
        } else {
            assert(s[s.len() - 1] == s.filter(pred)[n]);
        }
    }
}

/// A plan is determined by the options and the candidates: two plans for
/// the same candidates hold the same paths and indices and report the same
/// lines.
pub proof fn lemma_plan_is_determined(
    options: Options,
    paths: Seq<Seq<char>>,
    first: Seq<PlannedRename>,
    second: Seq<PlannedRename>,
)
    requires
        is_plan(options, paths, first),
        is_plan(options, paths, second),
    ensures
        first.len() == second.len(),
        forall|i: int|
            0 <= i < first.len() ==> {
                &&& (#[trigger] first[i])@ == second[i]@
                &&& first[i].report_text() == second[i].report_text()
            },
{
}

/// Where the pattern captures no number in the path of a candidate, the
/// candidate is numbered by its position among the sorted candidates, and
/// its output name holds that position in exactly six digits, with zeros
/// in front.
pub proof fn lemma_default_index_is_position(
    options: Options,
    paths: Seq<Seq<char>>,
    plan: Seq<PlannedRename>,
    i: int,
)
    requires
        is_plan(options, paths, plan),
        paths.len() <= MAX_CANDIDATES,
        0 <= i < plan.len(),
        !captures_number(options.pattern, paths[i]),
    ensures
        plan[i].index == i,
        plan[i].input@ == paths[i],
        plan[i].output@ == join_path(
            options.dir@,
            options.prefix@ + zero_padded(i as nat, 6) + options.suffix@,
        ),
        zero_padded(i as nat, 6).len() == 6,
{
    assert(plan[i]@ == planned(options, paths[i], i as usize));
    lemma_six_digits_below_a_million(i as nat);
}

/// Where the pattern captures a number in the path of a candidate, that
/// number is the candidate's index, whatever its position, and the output
/// name holds it in at least six digits.
pub proof fn lemma_captured_number_is_index(
    options: Options,
    paths: Seq<Seq<char>>,
    plan: Seq<PlannedRename>,
    i: int,
)
    requires
        is_plan(options, paths, plan),
        0 <= i < plan.len(),
        captures_number(options.pattern, paths[i]),
    ensures
        regex_first_capture(options.pattern, paths[i], INDEX_GROUP) matches Some(Some(text))
            && parsed_number(text) == Some(plan[i].index),
        plan[i].input@ == paths[i],
        plan[i].output@ == join_path(
            options.dir@,
            options.prefix@ + zero_padded(plan[i].index as nat, 6) + options.suffix@,
        ),
        zero_padded(plan[i].index as nat, 6).len() >= 6,
{
    assert(plan[i]@ == planned(options, paths[i], i as usize));
}

/// The sorted paths of the selected entries do not depend on the order of
/// the listing.
pub proof fn lemma_discovered_paths_ignore_order(
    re: regex::Regex,
    first: Seq<Entry>,
    second: Seq<Entry>,
)
    requires
        first.to_multiset() == second.to_multiset(),
    ensures
        discovered_paths(re, first) == discovered_paths(re, second),
{
    lemma_selection_ignores_order(re, first, second);
    lemma_lex_order_is_total();
    selected_paths(re, first).lemma_sort_by_ensures(lex_order());
    selected_paths(re, second).lemma_sort_by_ensures(lex_order());
    lemma_sorted_unique(
        discovered_paths(re, first),
        discovered_paths(re, second),
        lex_order(),
    );
}

/// A run is reproducible: with the same options, two listings of the same
/// entries, in whatever order, give plans with the same paths and indices,
/// which report the same lines.
pub proof fn lemma_run_is_reproducible(
    options: Options,
    first: Seq<Entry>,
    second: Seq<Entry>,
    from_first: Seq<PlannedRename>,
    from_second: Seq<PlannedRename>,
)
    requires
        first.to_multiset() == second.to_multiset(),
        is_plan(options, discovered_paths(options.pattern, first), from_first),
        is_plan(options, discovered_paths(options.pattern, second), from_second),
    ensures
        from_first.len() == from_second.len(),
        forall|i: int|
            0 <= i < from_first.len() ==> {
                &&& (#[trigger] from_first[i])@ == from_second[i]@
                &&& from_first[i].report_text() == from_second[i].report_text()
            },
{
    lemma_discovered_paths_ignore_order(options.pattern, first, second);
    lemma_plan_is_determined(
        options,
        discovered_paths(options.pattern, first),
        from_first,
        from_second,
    );
}

} // verus!
