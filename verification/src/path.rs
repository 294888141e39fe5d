//! Paths as text: the components of a path are separated by `/`.

use crate::text::chars_of;
use vstd::prelude::*;
use vstd::string::*;

verus! {

/// The character that separates the components of a path.
pub const SEPARATOR: char = '/';

/// Where the last component of `path` starts: just behind its last
/// separator, or at 0 where it has none.
pub open spec fn component_start(path: Seq<char>) -> int
    decreases path.len(),
{
    if path.len() == 0 || path.last() == SEPARATOR {
        path.len() as int
    } else {
        component_start(path.drop_last())
    }
}

/// Whether `path` ends in a component that is a single dot.
pub open spec fn ends_in_dot(path: Seq<char>) -> bool {
    &&& path.len() > 0
    &&& path.last() == '.'
    &&& (path.len() == 1 || path[path.len() - 2] == SEPARATOR)
}

/// The file name of a path: its last component, where empty components
/// (a trailing or doubled separator) and components that are a single dot
/// do not count.  A path without components has no file name, and neither
/// has one whose last component is `..`.
pub open spec fn file_name(path: Seq<char>) -> Option<Seq<char>>
    decreases path.len(),
{
    if path.len() == 0 {
        None
    } else if path.last() == SEPARATOR || ends_in_dot(path) {
        file_name(path.drop_last())
    } else {
        let name = path.subrange(component_start(path), path.len() as int);
        if name == seq!['.', '.'] {
            None
        } else {
            Some(name)
        }
    }
}

/// A directory and a name below it as one path: the two are put together
/// with a separator between them, unless the directory is empty or brings
/// its own.
pub open spec fn join_path(dir: Seq<char>, name: Seq<char>) -> Seq<char> {
    if dir.len() == 0 || dir.last() == SEPARATOR {
        dir + name
    } else {
        dir.push(SEPARATOR) + name
    }
}

/// A component starts within its path, and no separator follows the start.
pub proof fn lemma_component_start(path: Seq<char>)
    ensures
        0 <= component_start(path) <= path.len(),
        component_start(path) > 0 ==> path[component_start(path) - 1] == SEPARATOR,
        forall|i: int| component_start(path) <= i < path.len() ==> path[i] != SEPARATOR,
    decreases path.len(),
{
    if path.len() > 0 && path.last() != SEPARATOR {
        let front = path.drop_last();
        lemma_component_start(front);
        assert forall|i: int| component_start(path) <= i < path.len() implies path[i]
            != SEPARATOR by {
            if i < front.len() {
                assert(front[i] == path[i]);
            }
        }
    }
}

/// The start of the last component is the only place that a separator
/// precedes, or the beginning, and that no separator follows.
pub proof fn lemma_component_start_unique(path: Seq<char>, start: int)
    requires
        0 <= start <= path.len(),
        start > 0 ==> path[start - 1] == SEPARATOR,
        forall|i: int| start <= i < path.len() ==> path[i] != SEPARATOR,
    ensures
        component_start(path) == start,
{
    lemma_component_start(path);
}

/// The file name of a path, if it has one.
pub fn find_file_name(path: &str) -> (r: Option<&str>)
    ensures
        match r {
            Some(name) => file_name(path@) == Some(name@),
            None => file_name(path@) is None,
        },
{
    let chars = chars_of(path);
    let mut end: usize = chars.len();
    assert(path@.subrange(0, end as int) =~= path@);
    while end > 0 && (chars[end - 1] == SEPARATOR || (chars[end - 1] == '.' && (end == 1
        || chars[end - 2] == SEPARATOR)))
        invariant
            chars@ == path@,
            end <= chars.len(),
            file_name(path@) == file_name(path@.subrange(0, end as int)),
        decreases end,
    {
        proof {
            let cur = path@.subrange(0, end as int);
            assert(cur.drop_last() =~= path@.subrange(0, end - 1));
        }
        end = end - 1;
    }
    if end == 0 {
        return None;
    }
    let mut start: usize = end;
    while start > 0 && chars[start - 1] != SEPARATOR
        invariant
            chars@ == path@,
            start <= end <= chars.len(),
            forall|i: int| start <= i < end ==> path@[i] != SEPARATOR,
        decreases start,
    {
        start = start - 1;
    }
    proof {
        let cur = path@.subrange(0, end as int);
        lemma_component_start_unique(cur, start as int);
        assert(cur.subrange(start as int, end as int) =~= path@.subrange(start as int, end as int));
    }
    if end - start == 2 && chars[start] == '.' && chars[start + 1] == '.' {
        assert(path@.subrange(start as int, end as int) =~= seq!['.', '.']);
        None
    } else {
        assert(path@.subrange(start as int, end as int) != seq!['.', '.']) by {
            let name = path@.subrange(start as int, end as int);
            if name == seq!['.', '.'] {
                assert(name.len() == 2);
                assert(name[0] == '.');
                assert(name[1] == '.');
            }
        }
        Some(path.substring_char(start, end))
    }
}

/// The file name of a path that has one.
pub fn get_file_name(path: &str) -> (r: &str)
    requires
        file_name(path@) is Some,
    ensures
        file_name(path@) == Some(r@),
{
    find_file_name(path).unwrap()
}

/// A directory and a name below it as one path.
pub fn join(dir: &str, name: &str) -> (r: String)
    ensures
        r@ == join_path(dir@, name@),
{
    let chars = chars_of(dir);
    let mut out = String::from_str(dir);
    if chars.len() > 0 && chars[chars.len() - 1] != SEPARATOR {
        proof {
            reveal_strlit("/");
        }
        out.append("/");
        assert(out@ =~= dir@.push(SEPARATOR));
    }
    out.append(name);
    out
}

} // verus!
