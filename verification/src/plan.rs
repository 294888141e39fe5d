//! The plan of a run: the output index of each candidate, its output path,
//! and the line that reports the two.

use crate::discover::{
    candidate_paths, discover, discovered_paths, selected_paths, Candidate, Entry, MAX_CANDIDATES,
};
use crate::error::RenumberError;
use crate::number::{parse_number, parsed_number, push_zero_padded, zero_padded};
use crate::options::{Action, Options};
use crate::path::{join, join_path};
use crate::pattern::{first_capture, regex_first_capture};
use vstd::prelude::*;
use vstd::string::*;

verus! {

/// The least number of digits that an output index is written with.
pub const INDEX_WIDTH: usize = 6;

/// The capture group of the match pattern that may hold the output index.
pub const INDEX_GROUP: usize = 1;

/// One planned rename.
#[derive(Clone, Debug, PartialEq, Eq)]
pub struct PlannedRename {
    /// The path of the file as it is.
    pub input: String,
    /// The path of the file as it shall be.
    pub output: String,
    /// The number in the new name.
    pub index: usize,
}

/// A planned rename as plain values.
pub struct PlannedView {
    /// The path of the file as it is.
    pub input: Seq<char>,
    /// The path of the file as it shall be.
    pub output: Seq<char>,
    /// The number in the new name.
    pub index: usize,
}

/// What a run asks of the file system for one planned rename.
#[derive(Clone, Debug, PartialEq, Eq)]
pub enum Operation {
    /// Copy the bytes of `from` to `to`, and leave `from` as it is.
    Copy { from: String, to: String },
    /// Rename `from` to `to`.
    Rename { from: String, to: String },
}

impl View for PlannedRename {
    type V = PlannedView;

    open spec fn view(&self) -> PlannedView {
        PlannedView { input: self.input@, output: self.output@, index: self.index }
    }
}

/// The output index of a candidate, given what the search for the index
/// group in its path brought and the candidate's position among the sorted
/// candidates.  A captured text that stands for a number gives the index;
/// no match, no text for the group, or a text that is no number leaves the
/// position as the index.
pub open spec fn index_for(capture: Option<Option<Seq<char>>>, position: usize) -> usize {
    match capture {
        Some(Some(text)) => match parsed_number(text) {
            Some(number) => number,
            None => position,
        },
        _ => position,
    }
}

/// The output index of the candidate with the given full path at the given
/// position.  The pattern is searched in the full path, not in the file
/// name alone.
pub open spec fn output_index(re: regex::Regex, path: Seq<char>, position: usize) -> usize {
    index_for(regex_first_capture(re, path, INDEX_GROUP), position)
}

/// Whether the pattern captures a number in the path of a candidate: its
/// first match there has a text for the index group, and that text stands
/// for a number.
pub open spec fn captures_number(re: regex::Regex, path: Seq<char>) -> bool {
    regex_first_capture(re, path, INDEX_GROUP) matches Some(Some(text)) && parsed_number(text)
        is Some
}

/// An output name: the prefix, the index with zeros in front of it up to
/// `INDEX_WIDTH` digits, and the suffix.
pub open spec fn output_name(prefix: Seq<char>, index: usize, suffix: Seq<char>) -> Seq<char> {
    prefix + zero_padded(index as nat, INDEX_WIDTH as nat) + suffix
}

/// The planned rename of the candidate with the given full path at the
/// given position.
pub open spec fn planned(options: Options, path: Seq<char>, position: usize) -> PlannedView {
    let index = output_index(options.pattern, path, position);
    PlannedView {
        input: path,
        output: join_path(options.dir@, output_name(options.prefix@, index, options.suffix@)),
        index,
    }
}

/// Whether `plan` is the plan for the candidates with the given paths: one
/// rename for each, in their order.
pub open spec fn is_plan(options: Options, paths: Seq<Seq<char>>, plan: Seq<PlannedRename>) -> bool {
    &&& plan.len() == paths.len()
    &&& forall|i: int|
        0 <= i < plan.len() ==> (#[trigger] plan[i])@ == planned(options, paths[i], i as usize)
}

/// The output index, given what the search for the index group brought.
pub fn index_from_capture(capture: &Option<Option<String>>, position: usize) -> (r: usize)
    ensures
        r == index_for(capture.deep_view(), position),
{
    match capture {
        Some(Some(text)) => match parse_number(text.as_str()) {
            Some(number) => number,
            None => position,
        },
        _ => position,
    }
}

/// The output index of the candidate with the given full path at the given
/// position.
pub fn derive_index(re: &regex::Regex, path: &str, position: usize) -> (r: usize)
    ensures
        r == output_index(*re, path@, position),
{
    let capture = first_capture(re, path, INDEX_GROUP);
    index_from_capture(&capture, position)
}

/// The output path for an index.
pub fn project(dir: &str, prefix: &str, index: usize, suffix: &str) -> (r: String)
    ensures
        r@ == join_path(dir@, output_name(prefix@, index, suffix@)),
{
    let mut name = String::from_str(prefix);
    push_zero_padded(&mut name, index, INDEX_WIDTH);
    name.append(suffix);
    join(dir, name.as_str())
}

impl PlannedRename {
    /// The line that reports a planned rename: both paths in double quotes,
    /// an arrow between them.
    pub open spec fn report_text(self) -> Seq<char> {
        "renumber \""@ + self.input@ + "\" -> \""@ + self.output@ + "\""@
    }

    /// What the action of a run asks of the file system for this rename: a
    /// report asks nothing, a copy and a move each ask one operation from
    /// the input path to the output path.
    pub fn operation(&self, action: Action) -> (r: Option<Operation>)
        ensures
            match action {
                Action::ReportOnly => r is None,
                Action::Copy => r matches Some(Operation::Copy { from, to }) && from@
                    == self.input@ && to@ == self.output@,
                Action::Move => r matches Some(Operation::Rename { from, to }) && from@
                    == self.input@ && to@ == self.output@,
            },
    {
        match action {
            Action::ReportOnly => None,
            Action::Copy => Some(
                Operation::Copy { from: self.input.clone(), to: self.output.clone() },
            ),
            Action::Move => Some(
                Operation::Rename { from: self.input.clone(), to: self.output.clone() },
            ),
        }
    }

    /// The line that reports this rename.
    pub fn report_line(&self) -> (r: String)
        ensures
            r@ == self.report_text(),
    {
        let mut out = String::from_str("renumber \"");
        out.append(self.input.as_str());
        out.append("\" -> \"");
        out.append(self.output.as_str());
        out.append("\"");
        out
    }
}

/// Plans the rename of each candidate, in the order of the candidates.
pub fn plan(options: &Options, candidates: &Vec<Candidate>) -> (r: Vec<PlannedRename>)
    ensures
        is_plan(*options, candidate_paths(candidates@), r@),
{
    let mut out: Vec<PlannedRename> = Vec::new();
    let mut i: usize = 0;
    while i < candidates.len()
        invariant
            i <= candidates.len(),
            out.len() == i,
            forall|k: int|
                0 <= k < i ==> (#[trigger] out@[k])@ == planned(
                    *options,
                    candidates@[k].path@,
                    k as usize,
                ),
        decreases candidates.len() - i,
    {
        let path = candidates[i].path.as_str();
        let index = derive_index(&options.pattern, path, i);
        let output = project(
            options.dir.as_str(),
            options.prefix.as_str(),
            index,
            options.suffix.as_str(),
        );
        out.push(PlannedRename { input: candidates[i].path.clone(), output, index });
        i = i + 1;
    }
    out
}

/// Plans a whole run from the listing of its directory: discovers the
/// candidates and plans the rename of each.  The listing may come in any
/// order.  More than `MAX_CANDIDATES` candidates are refused before
/// anything is planned, and nothing else is.
pub fn renumber(options: &Options, entries: &Vec<Entry>) -> (r: Result<
    Vec<PlannedRename>,
    RenumberError,
>)
    ensures
        match r {
            Ok(plan) => {
                &&& selected_paths(options.pattern, entries@).len() <= MAX_CANDIDATES
                &&& is_plan(*options, discovered_paths(options.pattern, entries@), plan@)
            },
            Err(e) => e is TooManyCandidates && selected_paths(options.pattern, entries@).len()
                > MAX_CANDIDATES,
        },
{
    match discover(&options.pattern, entries) {
        Ok(candidates) => {
            proof {
                vstd::seq_lib::to_multiset_len(candidate_paths(candidates@));
                vstd::seq_lib::to_multiset_len(selected_paths(options.pattern, entries@));
            }
            Ok(plan(options, &candidates))
        },
        Err(e) => Err(e),
    }
}

} // verus!
