use vstd::prelude::*;

use crate::cli::sort_mode_named;
use crate::paths::chars_order;
use crate::risk::{risk_name, RiskResult};
use crate::sorting::{is_preorder, is_stable_sort, seq_sum};
use crate::tui::app::{desc_order, SortMode};

verus! {

/// One directory as the headless output reports it.
pub struct HeadlessResult {
    pub path: String,
    pub size: u64,
    pub modification_time: u64,
    pub is_dead: bool,
    pub risk_level: String,
}

/// The report of a headless scan: what ran, what was found, and the totals.
pub struct HeadlessReport {
    pub version: String,
    pub scan_root: String,
    pub targets: Vec<String>,
    pub duration_ms: u64,
    pub dirs_scanned: u64,
    pub results: Vec<HeadlessResult>,
    pub total_found: u64,
    pub total_size_bytes: u64,
}

/// The record of a found directory: its path, size and newest modification time,
/// whether it is dead, and its risk level by name in lower case.
pub fn headless_result(path: String, size: u64, modification_time: u64, risk: RiskResult) -> (r:
    HeadlessResult)
    ensures
        r.path == path,
        r.size == size,
        r.modification_time == modification_time,
        r.is_dead == risk.is_dead,
        r.risk_level@ == risk_name(risk.risk_level),
{
    HeadlessResult {
        path,
        size,
        modification_time,
        is_dead: risk.is_dead,
        risk_level: crate::text::string_of(risk.risk_level.as_str()),
    }
}

/// The sort that the headless output uses: the one named, or by path.
pub open spec fn headless_sort_mode(sort: Option<Seq<char>>) -> SortMode {
    match sort {
        Some(s) => sort_mode_named(s),
        None => SortMode::Path,
    }
}

pub open spec fn opt_str_view(sort: Option<&str>) -> Option<Seq<char>> {
    match sort {
        Some(s) => Some(s@),
        None => None,
    }
}

/// How two records compare: largest first by size, newest first by modification
/// time, by path as strings compare.
pub open spec fn headless_order(mode: SortMode) -> spec_fn(HeadlessResult, HeadlessResult) -> int {
    match mode {
        SortMode::Size => |a: HeadlessResult, b: HeadlessResult| desc_order(a.size, b.size),
        SortMode::LastMod => |a: HeadlessResult, b: HeadlessResult|
            desc_order(a.modification_time, b.modification_time),
        SortMode::Path => |a: HeadlessResult, b: HeadlessResult| chars_order(a.path@, b.path@),
    }
}

pub open spec fn size_of_record() -> spec_fn(HeadlessResult) -> int {
    |r: HeadlessResult| r.size as int
}

proof fn lemma_headless_order_preorder(mode: SortMode)
    ensures
        is_preorder(headless_order(mode)),
{
    let ord = headless_order(mode);
    match mode {
        SortMode::Path => {
            assert forall|x: HeadlessResult, y: HeadlessResult| #[trigger] ord(x, y) == -ord(y, x) by {
                crate::paths::lemma_chars_order(x.path@, y.path@, y.path@);
            }
            assert forall|x: HeadlessResult, y: HeadlessResult| -1 <= #[trigger] ord(x, y) <= 1 by {
                crate::paths::lemma_chars_order(x.path@, y.path@, y.path@);
            }
            assert forall|x: HeadlessResult, y: HeadlessResult, z: HeadlessResult|
                #![trigger ord(x, y), ord(y, z)]
                ord(x, y) <= 0 && ord(y, z) <= 0 implies ord(x, z) <= 0 by {
                crate::paths::lemma_chars_order(x.path@, y.path@, z.path@);
            }
            assert forall|x: HeadlessResult, y: HeadlessResult, z: HeadlessResult|
                #![trigger ord(x, y), ord(x, z)]
                ord(x, y) == 0 implies ord(x, z) == ord(y, z) by {
                crate::paths::lemma_chars_order(x.path@, y.path@, z.path@);
            }
        },
        _ => {},
    }
}

fn larger_record_first(a: &HeadlessResult, b: &HeadlessResult) -> (r: i8)
    ensures
        r == desc_order(a.size, b.size),
{
    if a.size > b.size {
        -1
    } else if a.size < b.size {
        1
    } else {
        0
    }
}

fn newer_record_first(a: &HeadlessResult, b: &HeadlessResult) -> (r: i8)
    ensures
        r == desc_order(a.modification_time, b.modification_time),
{
    if a.modification_time > b.modification_time {
        -1
    } else if a.modification_time < b.modification_time {
        1
    } else {
        0
    }
}

fn record_path_first(a: &HeadlessResult, b: &HeadlessResult) -> (r: i8)
    ensures
        r == chars_order(a.path@, b.path@),
{
    crate::paths::compare_strings(a.path.as_str(), b.path.as_str())
}

/// Sorts the records stably in the order named by `sort` (`size`, `last-mod`, or
/// else by path).
pub fn sort_results(results: Vec<HeadlessResult>, sort: Option<&str>) -> (r: Vec<HeadlessResult>)
    ensures
        is_stable_sort(results@, r@, headless_order(headless_sort_mode(opt_str_view(sort)))),
        seq_sum(r@, size_of_record()) == seq_sum(results@, size_of_record()),
{
    let mode = match sort {
        Some(s) => crate::cli::sort_mode_from_name(s),
        None => SortMode::Path,
    };
    proof {
        lemma_headless_order_preorder(mode);
    }
    match mode {
        SortMode::Size => crate::sorting::stable_sort(
            results,
            larger_record_first,
            Ghost(headless_order(mode)),
            Ghost(size_of_record()),
        ),
        SortMode::LastMod => crate::sorting::stable_sort(
            results,
            newer_record_first,
            Ghost(headless_order(mode)),
            Ghost(size_of_record()),
        ),
        SortMode::Path => crate::sorting::stable_sort(
            results,
            record_path_first,
            Ghost(headless_order(mode)),
            Ghost(size_of_record()),
        ),
    }
}

/// The headless records come out in the order named: `size` puts the largest
/// first, `last-mod` the newest modification first, anything else orders by path
/// as strings compare.
pub proof fn law_headless_sort_orders(old: Seq<HeadlessResult>, new: Seq<HeadlessResult>, sort: Option<Seq<char>>)
    requires
        is_stable_sort(old, new, headless_order(headless_sort_mode(sort))),
    ensures
        new.len() == old.len(),
        sort == Some("size"@) ==> forall|i: int, j: int|
            0 <= i < j < new.len() ==> (#[trigger] new[i]).size >= (#[trigger] new[j]).size,
        sort == Some("last-mod"@) ==> forall|i: int, j: int|
            0 <= i < j < new.len() ==> (#[trigger] new[i]).modification_time >= (#[trigger] new[j]).modification_time,
        sort is None ==> forall|i: int, j: int|
            0 <= i < j < new.len() ==> chars_order((#[trigger] new[i]).path@, (#[trigger] new[j]).path@) <= 0,
{
    reveal_strlit("size");
    reveal_strlit("last-mod");
    assert("size"@ != "last-mod"@) by {
        assert("size"@.len() != "last-mod"@.len());
    }
    let ord = headless_order(headless_sort_mode(sort));
    assert forall|i: int, j: int| 0 <= i < j < new.len() implies ord(#[trigger] new[i], #[trigger] new[j]) <= 0 by {}
}

/// A headless scan as it goes: the records found so far, their total size, and how
/// long the scan took once it is complete.
pub struct HeadlessRun {
    pub results: Vec<HeadlessResult>,
    pub total_size: u64,
    pub duration_ms: u64,
}

impl HeadlessRun {
    /// The total size is the sum of the sizes of the records.
    pub open spec fn wf(&self) -> bool {
        self.total_size == seq_sum(self.results@, size_of_record())
    }

    /// A run that has found nothing yet.
    pub fn new() -> (r: HeadlessRun)
        ensures
            r.results@.len() == 0,
            r.total_size == 0,
            r.duration_ms == 0,
            r.wf(),
    {
        HeadlessRun { results: Vec::new(), total_size: 0, duration_ms: 0 }
    }

    /// Records a found directory and adds its size to the total.
    pub fn record(&mut self, r: HeadlessResult)
        requires
            old(self).wf(),
            old(self).total_size + r.size <= u64::MAX,
        ensures
            final(self).results@ == old(self).results@.push(r),
            final(self).total_size == old(self).total_size + r.size,
            final(self).duration_ms == old(self).duration_ms,
            final(self).wf(),
    {
        let ghost before = self.results@;
        self.total_size = self.total_size + r.size;
        self.results.push(r);
        proof {
            assert(self.results@.drop_last() =~= before);
        }
    }

    /// Notes how long the scan took.
    pub fn complete(&mut self, duration_ms: u64)
        ensures
            final(self).results@ == old(self).results@,
            final(self).total_size == old(self).total_size,
            final(self).duration_ms == duration_ms,
    {
        self.duration_ms = duration_ms;
    }
}

/// The report of a finished run: version `1.0.0`, the root and targets, the
/// records sorted as `sort` names, and the count found (which is also what the
/// report gives as the directories scanned) and total size.
pub fn headless_report(run: HeadlessRun, scan_root: String, targets: Vec<String>, sort: Option<&str>) -> (r:
    HeadlessReport)
    requires
        run.wf(),
    ensures
        r.version@ == "1.0.0"@,
        r.scan_root == scan_root,
        r.targets == targets,
        r.duration_ms == run.duration_ms,
        r.total_found == run.results@.len(),
        r.dirs_scanned == r.total_found,
        r.total_size_bytes == run.total_size,
        r.total_size_bytes == seq_sum(r.results@, size_of_record()),
        is_stable_sort(run.results@, r.results@, headless_order(headless_sort_mode(opt_str_view(sort)))),
{
    let HeadlessRun { results, total_size, duration_ms } = run;
    let total_found = results.len() as u64;
    let sorted = sort_results(results, sort);
    HeadlessReport {
        version: crate::text::string_of("1.0.0"),
        scan_root,
        targets,
        duration_ms,
        dirs_scanned: total_found,
        results: sorted,
        total_found,
        total_size_bytes: total_size,
    }
}

/// The directories to delete with the sizes already measured, in the order given.
pub fn deletion_items(results: &Vec<HeadlessResult>) -> (items: Vec<(String, u64)>)
    ensures
        items@.len() == results@.len(),
        forall|i: int|
            0 <= i < results@.len() ==> (#[trigger] items@[i]).0@ == results@[i].path@
                && items@[i].1 == results@[i].size,
{
    let mut items: Vec<(String, u64)> = Vec::new();
    let mut i: usize = 0;
    while i < results.len()
        invariant
            i <= results@.len(),
            items@.len() == i,
            forall|j: int|
                0 <= j < i ==> (#[trigger] items@[j]).0@ == results@[j].path@ && items@[j].1
                    == results@[j].size,
        decreases results.len() - i,
    {
        let p = crate::text::string_of(results[i].path.as_str());
        items.push((p, results[i].size));
        i = i + 1;
    }
    items
}

} // verus!
