//! Discovery: which entries of a directory listing are candidates, and in
//! what order.

use crate::error::RenumberError;
use crate::path::{file_name, find_file_name, get_file_name};
use crate::pattern::{find_first, regex_find};
use crate::sort::{is_sorted, lemma_sorted_order_is_unique, sort_texts, texts_of};
use crate::text::{lemma_lex_order_is_total, lex_le, lex_order};
use vstd::prelude::*;
use vstd::string::*;

verus! {

/// The most candidates that a run takes.
pub const MAX_CANDIDATES: usize = 1_000_000;

/// One entry of a directory listing, as whoever listed the directory found
/// it.
#[derive(Clone, Debug, PartialEq, Eq)]
pub struct Entry {
    /// The full path of the entry.
    pub path: String,
    /// Whether the entry is a regular file, or a link to one.
    pub is_file: bool,
}

/// An entry selected for renumbering.
#[derive(Clone, Debug, PartialEq, Eq)]
pub struct Candidate {
    /// The full path of the entry.
    pub path: String,
    /// The file name of that path.
    pub name: String,
}

/// Whether an entry is selected: it is a regular file and its file name
/// (not its full path) holds a match for the pattern somewhere.
pub open spec fn is_selected(re: regex::Regex, entry: Entry) -> bool {
    &&& entry.is_file
    &&& file_name(entry.path@) matches Some(name)
    &&& regex_find(re, name) is Some
}

/// The test of `is_selected` for one pattern.
pub open spec fn selection(re: regex::Regex) -> spec_fn(Entry) -> bool {
    |entry: Entry| is_selected(re, entry)
}

/// The paths of the selected entries of a listing, in the order of the
/// listing.
pub open spec fn selected_paths(re: regex::Regex, entries: Seq<Entry>) -> Seq<Seq<char>> {
    entries.filter(selection(re)).map_values(|entry: Entry| entry.path@)
}

/// The paths of candidates.
pub open spec fn candidate_paths(candidates: Seq<Candidate>) -> Seq<Seq<char>> {
    candidates.map_values(|c: Candidate| c.path@)
}

impl Candidate {
    /// Whether the candidate holds the file name of its own path.
    pub open spec fn well_formed(self) -> bool {
        file_name(self.path@) == Some(self.name@)
    }
}

/// Whether each candidate holds the file name of its own path.
pub open spec fn names_derived(candidates: Seq<Candidate>) -> bool {
    forall|i: int| 0 <= i < candidates.len() ==> (#[trigger] candidates[i]).well_formed()
}

/// Whether `candidates` is what discovery owes for a listing: exactly the
/// selected entries, each as often as the listing holds it, in the
/// lexicographic order of their full paths, each with its file name, and no
/// more of them than a run takes.
pub open spec fn is_discovery(
    re: regex::Regex,
    entries: Seq<Entry>,
    candidates: Seq<Candidate>,
) -> bool {
    &&& candidates.len() <= MAX_CANDIDATES
    &&& candidate_paths(candidates).to_multiset() == selected_paths(re, entries).to_multiset()
    &&& is_sorted(candidate_paths(candidates))
    &&& names_derived(candidates)
}

/// The paths of the candidates of a listing: its selected paths, sorted.
pub open spec fn discovered_paths(re: regex::Regex, entries: Seq<Entry>) -> Seq<Seq<char>> {
    selected_paths(re, entries).sort_by(lex_order())
}

/// What discovery owes leaves no choice: the candidates hold the selected
/// paths in sorted order.
pub proof fn lemma_discovered_paths(
    re: regex::Regex,
    entries: Seq<Entry>,
    candidates: Seq<Candidate>,
)
    requires
        is_discovery(re, entries, candidates),
    ensures
        candidate_paths(candidates) == discovered_paths(re, entries),
{
    lemma_lex_order_is_total();
    selected_paths(re, entries).lemma_sort_by_ensures(lex_order());
    let sorted = discovered_paths(re, entries);
    assert forall|i: int, j: int| 0 <= i < j < sorted.len() implies lex_le(
        #[trigger] sorted[i],
        #[trigger] sorted[j],
    ) by {
        assert(lex_order()(sorted[i], sorted[j]));
    }
    lemma_sorted_order_is_unique(candidate_paths(candidates), discovered_paths(re, entries));
}

/// Every selected path has a file name.
pub proof fn lemma_selected_paths_have_names(re: regex::Regex, entries: Seq<Entry>)
    ensures
        forall|i: int|
            0 <= i < selected_paths(re, entries).len() ==> file_name(
                #[trigger] selected_paths(re, entries)[i],
            ) is Some,
{
    let kept = entries.filter(selection(re));
    assert forall|i: int| 0 <= i < selected_paths(re, entries).len() implies file_name(
        #[trigger] selected_paths(re, entries)[i],
    ) is Some by {
        entries.lemma_filter_pred(selection(re), i);
        assert(is_selected(re, kept[i]));
    }
}

/// Texts that occur equally often in two sequences share what holds of
/// every text of one of them: here, that it has a file name.
proof fn lemma_names_carry_over(from: Seq<Seq<char>>, to: Seq<Seq<char>>)
    requires
        from.to_multiset() == to.to_multiset(),
        forall|i: int| 0 <= i < from.len() ==> file_name(#[trigger] from[i]) is Some,
    ensures
        to.len() == from.len(),
        forall|n: int| 0 <= n < to.len() ==> file_name(#[trigger] to[n]) is Some,
{
    vstd::seq_lib::to_multiset_len(from);
    vstd::seq_lib::to_multiset_len(to);
    assert forall|n: int| 0 <= n < to.len() implies file_name(#[trigger] to[n]) is Some by {
        assert(to.contains(to[n]));
        vstd::seq_lib::to_multiset_contains(to, to[n]);
        vstd::seq_lib::to_multiset_contains(from, to[n]);
        let j = choose|j: int| 0 <= j < from.len() && from[j] == to[n];
        assert(file_name(from[j]) is Some);
    }
}

/// Whether an entry is selected.
pub fn is_candidate(re: &regex::Regex, entry: &Entry) -> (r: bool)
    ensures
        r == is_selected(*re, *entry),
{
    if !entry.is_file {
        return false;
    }
    match find_file_name(entry.path.as_str()) {
        Some(name) => find_first(re, name).is_some(),
        None => false,
    }
}

/// The paths of the selected entries of a listing, in the order of the
/// listing.
pub fn select(re: &regex::Regex, entries: &Vec<Entry>) -> (r: Vec<String>)
    ensures
        texts_of(r@) == selected_paths(*re, entries@),
{
    let mut out: Vec<String> = Vec::new();
    let mut i: usize = 0;
    assert(entries@.subrange(0, 0).filter(selection(*re)) =~= Seq::<Entry>::empty()) by {
        reveal(Seq::filter);
    }
    assert(texts_of(out@) =~= selected_paths(*re, entries@.subrange(0, 0)));
    while i < entries.len()
        invariant
            i <= entries.len(),
            texts_of(out@) == selected_paths(*re, entries@.subrange(0, i as int)),
        decreases entries.len() - i,
    {
        let entry = &entries[i];
        let ghost before = entries@.subrange(0, i as int);
        let ghost now = entries@.subrange(0, i + 1);
        proof {
            reveal(Seq::filter);
            assert(now.drop_last() =~= before);
            assert(now.last() == *entry);
        }
        if is_candidate(re, entry) {
            let ghost held = out@;
            let path = entry.path.clone();
            out.push(path);
            proof {
                let kept = before.filter(selection(*re));
                assert(now.filter(selection(*re)) == kept.push(*entry));
                assert(selected_paths(*re, now) =~= selected_paths(*re, before).push(entry.path@));
                assert(texts_of(out@) =~= texts_of(held).push(entry.path@));
            }
        } else {
            assert(texts_of(out@) =~= selected_paths(*re, now));
        }
        i = i + 1;
    }
    assert(entries@.subrange(0, i as int) =~= entries@);
    out
}

/// The candidates of a directory listing for a pattern: the regular files
/// whose file name holds a match, sorted by full path whatever the order of
/// the listing.  More than `MAX_CANDIDATES` of them are refused, and
/// nothing else is.
pub fn discover(re: &regex::Regex, entries: &Vec<Entry>) -> (r: Result<
    Vec<Candidate>,
    RenumberError,
>)
    ensures
        match r {
            Ok(candidates) => {
                &&& is_discovery(*re, entries@, candidates@)
                &&& candidate_paths(candidates@) == discovered_paths(*re, entries@)
            },
            Err(e) => e is TooManyCandidates && selected_paths(*re, entries@).len()
                > MAX_CANDIDATES,
        },
{
    let picked = select(re, entries);
    if picked.len() > MAX_CANDIDATES {
        return Err(RenumberError::TooManyCandidates);
    }
    let sorted = sort_texts(&picked);
    proof {
        lemma_selected_paths_have_names(*re, entries@);
        lemma_names_carry_over(texts_of(picked@), texts_of(sorted@));
    }
    let mut out: Vec<Candidate> = Vec::new();
    let mut k: usize = 0;
    while k < sorted.len()
        invariant
            k <= sorted.len(),
            out.len() == k,
            candidate_paths(out@) == texts_of(sorted@).subrange(0, k as int),
            names_derived(out@),
            forall|n: int|
                0 <= n < sorted.len() ==> file_name(#[trigger] texts_of(sorted@)[n]) is Some,
        decreases sorted.len() - k,
    {
        let path = sorted[k].clone();
        assert(path@ == texts_of(sorted@)[k as int]);
        let name = String::from_str(get_file_name(path.as_str()));
        let ghost before = out@;
        out.push(Candidate { path, name });
        proof {
            let want = texts_of(sorted@).subrange(0, k + 1);
            assert forall|n: int| 0 <= n < want.len() implies candidate_paths(out@)[n]
                == want[n] by {
                if n < k {
                    assert(candidate_paths(before)[n] == texts_of(sorted@).subrange(
                        0,
                        k as int,
                    )[n]);
                }
            }
            assert(candidate_paths(out@) =~= want);
            assert forall|n: int| 0 <= n < out.len() implies (#[trigger] out@[n]).well_formed() by {
                if n < k {
                    assert(out@[n] == before[n]);
                }
            }
            assert(names_derived(out@));
        }
        k = k + 1;
    }
    proof {
        assert(texts_of(sorted@).subrange(0, k as int) =~= texts_of(sorted@));
        lemma_discovered_paths(*re, entries@, out@);
    }
    Ok(out)
}

} // verus!
