use vstd::prelude::*;

use crate::text::ascii_lower;

verus! {

/// Options controlling how the scanner traverses directories.
pub struct ScanOptions {
    pub root: String,
    pub targets: Vec<String>,
    pub exclude: Vec<String>,
    pub exclude_hidden: bool,
    pub max_depth: Option<usize>,
}

/// Events emitted by the scanner as it discovers directories.
pub enum ScanEvent {
    Found { path: String },
    Progress { dirs_scanned: u64, dirs_found: u64 },
    Error { message: String },
    Complete { total_found: u64, duration_ms: u64 },
}

/// Whether a name is among the given names.
pub open spec fn names_contain(names: Seq<String>, n: Seq<char>) -> bool {
    exists|i: int| 0 <= i < names.len() && (#[trigger] names[i])@ == n
}

/// Whether a name is among the given names.
pub fn contains_name(names: &Vec<String>, n: &str) -> (r: bool)
    ensures
        r == names_contain(names@, n@),
{
    let mut i: usize = 0;
    while i < names.len()
        invariant
            i <= names@.len(),
            forall|j: int| 0 <= j < i ==> (#[trigger] names@[j])@ != n@,
        decreases names.len() - i,
    {
        if crate::text::str_equal(names[i].as_str(), n) {
            return true;
        }
        i = i + 1;
    }
    false
}

/// The root is itself a target when its file name is one of the targets; then it
/// is the only thing the scan finds.
pub fn root_is_target(opts: &ScanOptions) -> (r: bool)
    ensures
        r == (crate::paths::file_name_of(opts.root@) matches Some(n) && names_contain(opts.targets@, n)),
{
    match crate::paths::file_name(opts.root.as_str()) {
        Some(n) => contains_name(&opts.targets, n.as_str()),
        None => false,
    }
}

/// What the scanner does with an entry of the walk.
#[derive(Debug, Clone, Copy, PartialEq, Eq, Structural)]
pub enum EntryDecision {
    /// Not a directory, the root itself, or a name that is not Unicode: walk on,
    /// without counting it.
    Ignore,
    /// An excluded directory or a system directory: do not enter it, do not count it.
    Prune,
    /// A directory to count and enter.
    Descend,
    /// A target: count it, report it, and do not enter it.
    Target,
}

pub open spec fn entry_decision(
    is_dir: bool,
    depth: usize,
    name: Option<Seq<char>>,
    system_path: bool,
    targets: Seq<String>,
    exclude: Seq<String>,
) -> EntryDecision {
    if !is_dir || depth == 0 {
        EntryDecision::Ignore
    } else {
        match name {
            None => EntryDecision::Ignore,
            Some(n) => if names_contain(exclude, n) || system_path {
                EntryDecision::Prune
            } else if names_contain(targets, n) {
                EntryDecision::Target
            } else {
                EntryDecision::Descend
            },
        }
    }
}

/// What to do with a walked entry: whether it is a directory, its depth below
/// the root, its file name if that is Unicode, and whether it is a system path
/// that the scan skips.
pub fn classify_entry(
    is_dir: bool,
    depth: usize,
    name: Option<&str>,
    system_path: bool,
    targets: &Vec<String>,
    exclude: &Vec<String>,
) -> (d: EntryDecision)
    ensures
        d == entry_decision(
            is_dir,
            depth,
            match name {
                Some(s) => Some(s@),
                None => None,
            },
            system_path,
            targets@,
            exclude@,
        ),
{
    if !is_dir || depth == 0 {
        return EntryDecision::Ignore;
    }
    match name {
        None => EntryDecision::Ignore,
        Some(n) => {
            if contains_name(exclude, n) || system_path {
                EntryDecision::Prune
            } else if contains_name(targets, n) {
                EntryDecision::Target
            } else {
                EntryDecision::Descend
            }
        },
    }
}

/// Every name of a list is recognised, and only the names of the list.
pub proof fn law_every_listed_name_matches(names: Seq<String>, n: Seq<char>)
    ensures
        forall|i: int| 0 <= i < names.len() ==> names_contain(names, #[trigger] names[i]@),
        (forall|i: int| 0 <= i < names.len() ==> (#[trigger] names[i])@ != n) ==> !names_contain(names, n),
{
    assert forall|i: int| 0 <= i < names.len() implies names_contain(names, #[trigger] names[i]@) by {
        assert(names[i]@ == names[i]@);
    }
}

/// A directory below the root is a target when its name is any of the targets,
/// pruned when it is any of the excluded names or a system path, and entered
/// otherwise; files, the root itself and names that are not Unicode are passed by.
pub proof fn law_walk_decisions(
    targets: Seq<String>,
    exclude: Seq<String>,
    depth: usize,
    name: Seq<char>,
    system_path: bool,
)
    ensures
        depth > 0 && !system_path && (forall|j: int| 0 <= j < exclude.len() ==> (#[trigger] exclude[j])@ != name)
            && (exists|i: int| 0 <= i < targets.len() && (#[trigger] targets[i])@ == name) ==> entry_decision(
            true,
            depth,
            Some(name),
            system_path,
            targets,
            exclude,
        ) == EntryDecision::Target,
        depth > 0 && ((exists|j: int| 0 <= j < exclude.len() && (#[trigger] exclude[j])@ == name) || system_path)
            ==> entry_decision(true, depth, Some(name), system_path, targets, exclude) == EntryDecision::Prune,
        depth > 0 && !system_path && (forall|j: int| 0 <= j < exclude.len() ==> (#[trigger] exclude[j])@ != name)
            && (forall|i: int| 0 <= i < targets.len() ==> (#[trigger] targets[i])@ != name) ==> entry_decision(
            true,
            depth,
            Some(name),
            system_path,
            targets,
            exclude,
        ) == EntryDecision::Descend,
        entry_decision(false, depth, Some(name), system_path, targets, exclude) == EntryDecision::Ignore,
        entry_decision(true, 0, Some(name), system_path, targets, exclude) == EntryDecision::Ignore,
        entry_decision(true, depth, None, system_path, targets, exclude) == EntryDecision::Ignore,
{
    law_every_listed_name_matches(targets, name);
    law_every_listed_name_matches(exclude, name);
}

/// How many counted directories pass between two progress events.
pub const PROGRESS_EVERY: u64 = 500;

/// Whether a progress event is due once `scanned` directories have been counted.
pub fn progress_due(scanned: u64) -> (r: bool)
    ensures
        r == (scanned % PROGRESS_EVERY == 0),
{
    scanned % PROGRESS_EVERY == 0
}

/// A Windows path separator.
pub open spec fn is_win_sep(c: char) -> bool {
    c == '\\' || c == '/'
}

/// From position `i`, the end of the run of characters that are not separators.
pub open spec fn seg_end(p: Seq<char>, i: int) -> int
    decreases p.len() - i,
{
    if i < 0 || i >= p.len() || is_win_sep(p[i]) {
        i
    } else {
        seg_end(p, i + 1)
    }
}

pub proof fn lemma_seg_end_bounds(p: Seq<char>, i: int)
    requires
        0 <= i <= p.len(),
    ensures
        i <= seg_end(p, i) <= p.len(),
    decreases p.len() - i,
{
    if i < p.len() && !is_win_sep(p[i]) {
        lemma_seg_end_bounds(p, i + 1);
    }
}

/// From position `i`, the first component of a Windows path after the root that is
/// not skipped: empty segments and `.` are skipped.
pub open spec fn first_component_from(p: Seq<char>, i: int) -> Option<Seq<char>>
    decreases p.len() - i,
{
    if i < 0 || i >= p.len() {
        None
    } else if is_win_sep(p[i]) {
        first_component_from(p, i + 1)
    } else {
        proof {
            lemma_seg_end_bounds(p, i);
        }
        let e = seg_end(p, i);
        if p.subrange(i, e) =~= seq!['.'] {
            first_component_from(p, e)
        } else {
            Some(p.subrange(i, e))
        }
    }
}

/// Two texts are equal when ASCII letters are taken without case.
pub open spec fn eq_ignore_case(a: Seq<char>, b: Seq<char>) -> bool {
    a.len() == b.len() && forall|i: int| 0 <= i < a.len() ==> ascii_lower(#[trigger] a[i]) == ascii_lower(b[i])
}

/// A path on drive C whose first directory is `Windows`, `Program Files` or
/// `Program Files (x86)`, in any case.
pub open spec fn windows_system_path(p: Seq<char>) -> bool {
    &&& p.len() >= 3
    &&& ascii_lower(p[0]) == 'c'
    &&& p[1] == ':'
    &&& is_win_sep(p[2])
    &&& match first_component_from(p, 3) {
        Some(seg) => eq_ignore_case(seg, "windows"@) || eq_ignore_case(seg, "program files"@) || eq_ignore_case(
            seg,
            "program files (x86)"@,
        ),
        None => false,
    }
}

fn eq_ignore_case_exec(a: &Vec<char>, lo: usize, hi: usize, b: &str) -> (r: bool)
    requires
        lo <= hi <= a@.len(),
    ensures
        r == eq_ignore_case(a@.subrange(lo as int, hi as int), b@),
{
    let bv = crate::text::chars_of(b);
    if hi - lo != bv.len() {
        return false;
    }
    let mut i: usize = 0;
    while i < bv.len()
        invariant
            bv@ == b@,
            lo <= hi <= a@.len(),
            hi - lo == bv@.len(),
            i <= bv@.len(),
            forall|j: int| 0 <= j < i ==> ascii_lower(#[trigger] a@.subrange(lo as int, hi as int)[j]) == ascii_lower(bv@[j]),
        decreases bv.len() - i,
    {
        if crate::text::ascii_lower_exec(a[lo + i]) != crate::text::ascii_lower_exec(bv[i]) {
            assert(a@.subrange(lo as int, hi as int)[i as int] == a@[lo + i]);
            return false;
        }
        assert(a@.subrange(lo as int, hi as int)[i as int] == a@[lo + i]);
        i = i + 1;
    }
    true
}

/// Whether the scan skips a path as a Windows system location
/// (see `windows_system_path`).
pub fn is_windows_system_path(path: &str) -> (r: bool)
    ensures
        r == windows_system_path(path@),
{
    let p = crate::text::chars_of(path);
    let n = p.len();
    if n < 3 || crate::text::ascii_lower_exec(p[0]) != 'c' || p[1] != ':' || !(p[2] == '\\' || p[2] == '/') {
        return false;
    }
    let mut i: usize = 3;
    loop
        invariant
            3 <= i <= n == p@.len(),
            p@ == path@,
            ascii_lower(p@[0]) == 'c' && p@[1] == ':' && is_win_sep(p@[2]),
            first_component_from(p@, 3) == first_component_from(p@, i as int),
        decreases n - i,
    {
        if i >= n {
            return false;
        }
        if p[i] == '\\' || p[i] == '/' {
            i = i + 1;
        } else {
            let mut e = i;
            while e < n && !(p[e] == '\\' || p[e] == '/')
                invariant
                    i <= e <= n == p@.len(),
                    seg_end(p@, i as int) == seg_end(p@, e as int),
                decreases n - e,
            {
                e = e + 1;
            }
            let is_dot = e - i == 1 && p[i] == '.';
            proof {
                lemma_seg_end_bounds(p@, i as int);
                if is_dot {
                    assert(p@.subrange(i as int, e as int) =~= seq!['.']);
                } else if p@.subrange(i as int, e as int) =~= seq!['.'] {
                    assert(p@.subrange(i as int, e as int).len() == 1);
                    assert(p@.subrange(i as int, e as int)[0] == p@[i as int]);
                }
            }
            if is_dot {
                i = e;
            } else {
                return eq_ignore_case_exec(&p, i, e, "windows") || eq_ignore_case_exec(&p, i, e, "program files")
                    || eq_ignore_case_exec(&p, i, e, "program files (x86)");
            }
        }
    }
}

} // verus!
