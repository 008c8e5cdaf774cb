use vstd::prelude::*;

use crate::paths::{path_order, same_path};
use crate::risk::RiskLevel;
use crate::sorting::{is_preorder, is_stable_sort, seq_sum};

verus! {

/// What the interactive list is doing.
#[derive(Debug, Clone, Copy, PartialEq, Eq, Structural)]
pub enum AppMode {
    Normal,
    MultiSelect,
    RangeSelect,
    Search,
    Deleting,
    Help,
    Preview,
}

/// The order of the result list.
#[derive(Debug, Clone, Copy, PartialEq, Eq, Structural)]
pub enum SortMode {
    Path,
    Size,
    LastMod,
}

pub open spec fn sort_mode_label(m: SortMode) -> Seq<char> {
    match m {
        SortMode::Path => "path"@,
        SortMode::Size => "size"@,
        SortMode::LastMod => "last-mod"@,
    }
}

pub open spec fn sort_mode_next(m: SortMode) -> SortMode {
    match m {
        SortMode::Path => SortMode::Size,
        SortMode::Size => SortMode::LastMod,
        SortMode::LastMod => SortMode::Path,
    }
}

impl SortMode {
    /// The name shown for the sort order.
    pub fn label(self) -> (r: &'static str)
        ensures
            r@ == sort_mode_label(self),
    {
        match self {
            SortMode::Path => "path",
            SortMode::Size => "size",
            SortMode::LastMod => "last-mod",
        }
    }

    /// The sort order that follows this one: path, size, last-mod, then path again.
    pub fn next(self) -> (r: Self)
        ensures
            r == sort_mode_next(self),
    {
        match self {
            SortMode::Path => SortMode::Size,
            SortMode::Size => SortMode::LastMod,
            SortMode::LastMod => SortMode::Path,
        }
    }
}

/// Where a found directory stands.
#[derive(Debug, Clone, Copy, PartialEq, Eq, Structural)]
pub enum FolderStatus {
    Found,
    Deleting,
    Deleted,
    Error,
}

/// One directory that the scan found.
#[derive(Debug)]
pub struct FolderResult {
    pub path: String,
    pub size_bytes: u64,
    pub newest_ms: u64,
    pub is_dead: bool,
    pub risk_level: RiskLevel,
    pub status: FolderStatus,
    pub error_message: Option<String>,
    pub project_name: Option<String>,
}

/// A deleted directory that was moved aside and can still be brought back.
#[derive(Debug)]
pub struct UndoEntry {
    pub original_path: String,
    pub trash_path: String,
    pub size_bytes: u64,
    pub expires_ms: u64,
}

/// The quotes shown under the title.
pub open spec fn quote_text(i: int) -> Seq<char> {
    if i == 0 {
        "\"Throughout the filesystem, I alone am the honored one.\""@
    } else if i == 1 {
        "\"Are you the strongest because you delete node_modules, or do you delete node_modules because you are the strongest?\""@
    } else if i == 2 {
        "\"Don't worry. I'm the strongest disk cleaner.\""@
    } else if i == 3 {
        "\"Nah, I'd clean.\""@
    } else if i == 4 {
        "\"Standing at the top means deleting everything beneath you.\""@
    } else {
        "\"This is Domain Expansion: Infinite Free Space.\""@
    }
}

/// The number of quotes.
pub const QUOTE_COUNT: usize = 6;

/// The quote with the given number.
pub fn quote(i: usize) -> (q: &'static str)
    requires
        i < QUOTE_COUNT,
    ensures
        q@ == quote_text(i as int),
{
    if i == 0 {
        "\"Throughout the filesystem, I alone am the honored one.\""
    } else if i == 1 {
        "\"Are you the strongest because you delete node_modules, or do you delete node_modules because you are the strongest?\""
    } else if i == 2 {
        "\"Don't worry. I'm the strongest disk cleaner.\""
    } else if i == 3 {
        "\"Nah, I'd clean.\""
    } else if i == 4 {
        "\"Standing at the top means deleting everything beneath you.\""
    } else {
        "\"This is Domain Expansion: Infinite Free Space.\""
    }
}

/// The state of the interactive result list.
pub struct App {
    pub mode: AppMode,
    pub results: Vec<FolderResult>,
    pub filtered_indices: Vec<usize>,
    pub selected_index: usize,
    pub selected_paths: Vec<String>,
    pub range_start: Option<usize>,
    pub search_query: String,
    pub scan_complete: bool,
    pub total_size: u64,
    pub freed_space: u64,
    pub errors: Vec<String>,
    pub permission_denied_count: u64,
    pub show_errors: bool,
    pub scroll_offset: usize,
    pub sort_mode: SortMode,
    pub scan_duration_ms: u64,
    pub dirs_scanned: u64,
    pub current_quote: &'static str,
    pub should_quit: bool,
    pub dry_run: bool,
    pub min_size: Option<u64>,
    pub list_height: usize,
    pub pending_delete: Option<String>,
    pub preview_entries: Vec<(String, u64)>,
    pub undo_stack: Vec<UndoEntry>,
    pub freed_flash_until: u64,
    filter_dirty: bool,
    sort_dirty: bool,
}

/// The state of the list as mathematical values.
pub struct AppView {
    pub mode: AppMode,
    pub results: Seq<FolderResult>,
    pub filtered_indices: Seq<usize>,
    pub selected_index: usize,
    pub selected_paths: Seq<String>,
    pub range_start: Option<usize>,
    pub search_query: Seq<char>,
    pub scan_complete: bool,
    pub total_size: u64,
    pub freed_space: u64,
    pub errors: Seq<String>,
    pub permission_denied_count: u64,
    pub show_errors: bool,
    pub scroll_offset: usize,
    pub sort_mode: SortMode,
    pub scan_duration_ms: u64,
    pub dirs_scanned: u64,
    pub current_quote: Seq<char>,
    pub should_quit: bool,
    pub dry_run: bool,
    pub min_size: Option<u64>,
    pub list_height: usize,
    pub pending_delete: Option<String>,
    pub preview_entries: Seq<(String, u64)>,
    pub undo_stack: Seq<UndoEntry>,
    pub freed_flash_until: u64,
    pub filter_dirty: bool,
    pub sort_dirty: bool,
}

impl View for App {
    type V = AppView;

    closed spec fn view(&self) -> AppView {
        AppView {
            mode: self.mode,
            results: self.results@,
            filtered_indices: self.filtered_indices@,
            selected_index: self.selected_index,
            selected_paths: self.selected_paths@,
            range_start: self.range_start,
            search_query: self.search_query@,
            scan_complete: self.scan_complete,
            total_size: self.total_size,
            freed_space: self.freed_space,
            errors: self.errors@,
            permission_denied_count: self.permission_denied_count,
            show_errors: self.show_errors,
            scroll_offset: self.scroll_offset,
            sort_mode: self.sort_mode,
            scan_duration_ms: self.scan_duration_ms,
            dirs_scanned: self.dirs_scanned,
            current_quote: self.current_quote@,
            should_quit: self.should_quit,
            dry_run: self.dry_run,
            min_size: self.min_size,
            list_height: self.list_height,
            pending_delete: self.pending_delete,
            preview_entries: self.preview_entries@,
            undo_stack: self.undo_stack@,
            freed_flash_until: self.freed_flash_until,
            filter_dirty: self.filter_dirty,
            sort_dirty: self.sort_dirty,
        }
    }
}

/// The size that a result counts for in the total.
pub open spec fn size_weight() -> spec_fn(FolderResult) -> int {
    |r: FolderResult| r.size_bytes as int
}

pub open spec fn sum_sizes(rs: Seq<FolderResult>) -> int {
    seq_sum(rs, size_weight())
}

/// The index that a path finds among the results: the last result with the same
/// path, as the path-to-index map that the list keeps up to date holds it.
pub open spec fn lookup(rs: Seq<FolderResult>, p: Seq<char>) -> Option<int>
    decreases rs.len(),
{
    if rs.len() == 0 {
        None
    } else if same_path(rs.last().path@, p) {
        Some(rs.len() - 1)
    } else {
        lookup(rs.drop_last(), p)
    }
}

pub proof fn lemma_lookup_bounds(rs: Seq<FolderResult>, p: Seq<char>)
    ensures
        lookup(rs, p) matches Some(i) ==> 0 <= i < rs.len() && same_path(rs[i].path@, p),
        lookup(rs, p) is None ==> forall|j: int| 0 <= j < rs.len() ==> !same_path(#[trigger] rs[j].path@, p),
    decreases rs.len(),
{
    if rs.len() > 0 {
        lemma_lookup_bounds(rs.drop_last(), p);
        if !same_path(rs.last().path@, p) {
            assert forall|j: int| 0 <= j < rs.len() && lookup(rs, p) is None implies !same_path(#[trigger] rs[j].path@, p) by {
                if j < rs.len() - 1 {
                    assert(rs[j] == rs.drop_last()[j]);
                }
            }
        }
    }
}

/// Results keep their paths when only their other fields change, so lookups keep
/// their answers.
pub proof fn lemma_lookup_same_paths(a: Seq<FolderResult>, b: Seq<FolderResult>, p: Seq<char>)
    requires
        a.len() == b.len(),
        forall|i: int| 0 <= i < a.len() ==> (#[trigger] a[i]).path == b[i].path,
    ensures
        lookup(a, p) == lookup(b, p),
    decreases a.len(),
{
    if a.len() > 0 {
        assert(a.last().path == b.last().path);
        lemma_lookup_same_paths(a.drop_last(), b.drop_last(), p);
    }
}

/// No two selected paths name the same directory.
pub open spec fn distinct_paths(s: Seq<String>) -> bool {
    forall|i: int, j: int| 0 <= i < s.len() && 0 <= j < s.len() && i != j ==> !same_path(#[trigger] s[i]@, #[trigger] s[j]@)
}

/// Whether a path is among the selected ones.
pub open spec fn selection_has(s: Seq<String>, p: Seq<char>) -> bool {
    exists|i: int| 0 <= i < s.len() && same_path(#[trigger] s[i]@, p)
}

impl AppView {
    /// The invariant of the list: the total is the sum of the sizes, the filtered
    /// indices point at results, the selection points into the filtered list when it
    /// is not empty, the scroll window does not overflow, and no path is selected twice.
    pub open spec fn wf(self) -> bool {
        &&& self.total_size == sum_sizes(self.results)
        &&& forall|i: int| 0 <= i < self.filtered_indices.len() ==> #[trigger] self.filtered_indices[i] < self.results.len()
        &&& self.filtered_indices.len() > 0 ==> self.selected_index < self.filtered_indices.len()
        &&& self.scroll_offset + self.list_height <= usize::MAX
        &&& distinct_paths(self.selected_paths)
    }
}

/// A newly found directory: no size yet, alive, low risk.
pub open spec fn fresh_result(path: String) -> FolderResult {
    FolderResult {
        path,
        size_bytes: 0,
        newest_ms: 0,
        is_dead: false,
        risk_level: RiskLevel::Low,
        status: FolderStatus::Found,
        error_message: None,
        project_name: None,
    }
}

/// A fresh list: empty, normal mode, quote number `quote_index`.
pub open spec fn initial_view(
    sort_mode: SortMode,
    dry_run: bool,
    min_size: Option<u64>,
    quote_index: int,
) -> AppView {
    AppView {
        mode: AppMode::Normal,
        results: seq![],
        filtered_indices: seq![],
        selected_index: 0,
        selected_paths: seq![],
        range_start: None,
        search_query: seq![],
        scan_complete: false,
        total_size: 0,
        freed_space: 0,
        errors: seq![],
        permission_denied_count: 0,
        show_errors: false,
        scroll_offset: 0,
        sort_mode,
        scan_duration_ms: 0,
        dirs_scanned: 0,
        current_quote: quote_text(quote_index),
        should_quit: false,
        dry_run,
        min_size,
        list_height: 10,
        pending_delete: None,
        preview_entries: seq![],
        undo_stack: seq![],
        freed_flash_until: 0,
        filter_dirty: true,
        sort_dirty: false,
    }
}

impl App {
    /// A fresh list whose quote is picked by `now_nanos`, the time in nanoseconds.
    pub fn new_at(sort_mode: SortMode, dry_run: bool, min_size: Option<u64>, now_nanos: u128) -> (app: App)
        ensures
            app@ == initial_view(sort_mode, dry_run, min_size, ((now_nanos as usize) % QUOTE_COUNT) as int),
            app@.wf(),
    {
        let quote_idx = (now_nanos as usize) % QUOTE_COUNT;
        let app = App {
            mode: AppMode::Normal,
            results: Vec::new(),
            filtered_indices: Vec::new(),
            selected_index: 0,
            selected_paths: Vec::new(),
            range_start: None,
            search_query: String::new(),
            scan_complete: false,
            total_size: 0,
            freed_space: 0,
            errors: Vec::new(),
            permission_denied_count: 0,
            show_errors: false,
            scroll_offset: 0,
            sort_mode,
            scan_duration_ms: 0,
            dirs_scanned: 0,
            current_quote: quote(quote_idx),
            should_quit: false,
            dry_run,
            min_size,
            list_height: 10,
            pending_delete: None,
            preview_entries: Vec::new(),
            undo_stack: Vec::new(),
            freed_flash_until: 0,
            filter_dirty: true,
            sort_dirty: false,
        };
        assert(app@.results =~= Seq::<FolderResult>::empty());
        assert(app@ =~= initial_view(sort_mode, dry_run, min_size, quote_idx as int));
        app
    }

    /// A fresh list whose quote is picked by the clock.
    pub fn new(sort_mode: SortMode, dry_run: bool, min_size: Option<u64>) -> (app: App)
        ensures
            exists|q: int| 0 <= q < QUOTE_COUNT && app@ == initial_view(sort_mode, dry_run, min_size, q),
            app@.wf(),
    {
        let t = crate::clock::now_nanos();
        let app = Self::new_at(sort_mode, dry_run, min_size, t);
        assert(app@ == initial_view(sort_mode, dry_run, min_size, ((t as usize) % QUOTE_COUNT) as int));
        app
    }

    /// The index of the result with this path (the last one, if several share it).
    pub fn index_of(&self, path: &str) -> (r: Option<usize>)
        ensures
            match r {
                Some(i) => lookup(self@.results, path@) == Some(i as int),
                None => lookup(self@.results, path@).is_none(),
            },
    {
        let mut i = self.results.len();
        assert(self@.results.take(i as int) =~= self@.results);
        while i > 0
            invariant
                i <= self.results@.len(),
                lookup(self@.results, path@) == lookup(self@.results.take(i as int), path@),
            decreases i,
        {
            assert(self@.results.take(i as int).drop_last() =~= self@.results.take(i - 1));
            assert(self@.results.take(i as int).last() == self.results@[i - 1]);
            if crate::paths::paths_equal(self.results[i - 1].path.as_str(), path) {
                return Some(i - 1);
            }
            i = i - 1;
        }
        None
    }
}


/// `r` with a new size and newest modification time.
pub open spec fn resized(r: FolderResult, size: u64, newest_ms: u64) -> FolderResult {
    FolderResult { size_bytes: size, newest_ms, ..r }
}

pub open spec fn with_status(r: FolderResult, status: FolderStatus) -> FolderResult {
    FolderResult { status, ..r }
}

impl AppView {
    pub open spec fn after_add(self, path: String) -> AppView {
        AppView { results: self.results.push(fresh_result(path)), filter_dirty: true, ..self }
    }

    /// The total that `update_size` leaves: the old size is taken out and the new one
    /// put in.
    pub open spec fn resized_total(self, i: int, size: u64) -> int {
        self.total_size - self.results[i].size_bytes + size
    }

    pub open spec fn after_update_size(self, path: Seq<char>, size: u64, newest_ms: u64) -> AppView {
        match lookup(self.results, path) {
            Some(i) => AppView {
                results: self.results.update(i, resized(self.results[i], size, newest_ms)),
                total_size: self.resized_total(i, size) as u64,
                sort_dirty: true,
                filter_dirty: true,
                ..self
            },
            None => self,
        }
    }

    pub open spec fn after_update_risk(self, path: Seq<char>, is_dead: bool, risk: RiskLevel) -> AppView {
        match lookup(self.results, path) {
            Some(i) => AppView {
                results: self.results.update(i, FolderResult { is_dead, risk_level: risk, ..self.results[i] }),
                ..self
            },
            None => self,
        }
    }

    pub open spec fn after_mark_deleted(self, path: Seq<char>, freed: u64) -> AppView {
        match lookup(self.results, path) {
            Some(i) => AppView {
                results: self.results.update(i, with_status(self.results[i], FolderStatus::Deleted)),
                freed_space: (self.freed_space + freed) as u64,
                filter_dirty: true,
                ..self
            },
            None => self,
        }
    }

    pub open spec fn after_mark_error(self, path: Seq<char>, message: String) -> AppView {
        match lookup(self.results, path) {
            Some(i) => AppView {
                results: self.results.update(
                    i,
                    FolderResult { status: FolderStatus::Error, error_message: Some(message), ..self.results[i] },
                ),
                filter_dirty: true,
                ..self
            },
            None => self,
        }
    }

    pub open spec fn after_project_name(self, path: Seq<char>, name: Option<String>) -> AppView {
        match lookup(self.results, path) {
            Some(i) => AppView {
                results: self.results.update(i, FolderResult { project_name: name, ..self.results[i] }),
                ..self
            },
            None => self,
        }
    }

    pub open spec fn after_restore(self, path: Seq<char>, size: u64) -> AppView {
        match lookup(self.results, path) {
            Some(i) => AppView {
                results: self.results.update(i, with_status(self.results[i], FolderStatus::Found)),
                freed_space: if self.freed_space >= size { (self.freed_space - size) as u64 } else { 0 },
                filter_dirty: true,
                ..self
            },
            None => self,
        }
    }
}

/// Changing a result in place keeps the list well formed when the total follows.
proof fn lemma_wf_update(v: AppView, w: AppView, i: int)
    requires
        v.wf(),
        0 <= i < v.results.len(),
        w.results == v.results.update(i, w.results[i]),
        w.results[i].path == v.results[i].path,
        w.total_size == v.total_size - v.results[i].size_bytes + w.results[i].size_bytes,
        w.filtered_indices == v.filtered_indices,
        w.selected_index == v.selected_index,
        w.scroll_offset == v.scroll_offset,
        w.list_height == v.list_height,
        w.selected_paths == v.selected_paths,
    ensures
        w.wf(),
{
    crate::sorting::lemma_sum_update(v.results, i, w.results[i], size_weight());
}

impl App {
    /// Adds a found directory to the list.
    pub fn add_result(&mut self, path: String)
        requires
            old(self)@.wf(),
        ensures
            final(self)@ == old(self)@.after_add(path),
            final(self)@.wf(),
    {
        let ghost old_rs = self.results@;
        self.results.push(FolderResult {
            path,
            size_bytes: 0,
            newest_ms: 0,
            is_dead: false,
            risk_level: RiskLevel::Low,
            status: FolderStatus::Found,
            error_message: None,
            project_name: None,
        });
        self.filter_dirty = true;
        assert(self.results@.drop_last() =~= old_rs);
        assert(self@ =~= old(self)@.after_add(path));
    }

    /// Records the size and newest modification time of a directory; the total
    /// follows, and the list is to be sorted and filtered again.
    pub fn update_size(&mut self, path: &str, size: u64, newest_ms: u64)
        requires
            old(self)@.wf(),
            lookup(old(self)@.results, path@) matches Some(i) ==> old(self)@.resized_total(i, size) <= u64::MAX,
        ensures
            final(self)@ == old(self)@.after_update_size(path@, size, newest_ms),
            final(self)@.wf(),
    {
        if let Some(idx) = self.index_of(path) {
            proof {
                lemma_lookup_bounds(self@.results, path@);
                crate::sorting::lemma_sum_ge_elem(self@.results, idx as int, size_weight());
            }
            let old_size = self.results[idx].size_bytes;
            self.results[idx].size_bytes = size;
            self.results[idx].newest_ms = newest_ms;
            self.total_size = self.total_size - old_size + size;
            self.sort_dirty = true;
            self.filter_dirty = true;
            proof {
                assert(self@.results =~= old(self)@.results.update(idx as int, resized(old(self)@.results[idx as int], size, newest_ms)));
                lemma_wf_update(old(self)@, self@, idx as int);
                assert(self@ =~= old(self)@.after_update_size(path@, size, newest_ms));
            }
        }
    }

    /// Records the risk of a directory.
    pub fn update_risk(&mut self, path: &str, is_dead: bool, risk_level: RiskLevel)
        requires
            old(self)@.wf(),
        ensures
            final(self)@ == old(self)@.after_update_risk(path@, is_dead, risk_level),
            final(self)@.wf(),
    {
        if let Some(idx) = self.index_of(path) {
            proof {
                lemma_lookup_bounds(self@.results, path@);
            }
            self.results[idx].is_dead = is_dead;
            self.results[idx].risk_level = risk_level;
            proof {
                assert(self@.results =~= old(self)@.results.update(
                    idx as int,
                    FolderResult { is_dead, risk_level, ..old(self)@.results[idx as int] },
                ));
                lemma_wf_update(old(self)@, self@, idx as int);
                assert(self@ =~= old(self)@.after_update_risk(path@, is_dead, risk_level));
            }
        }
    }

    /// Records that a directory was deleted and how much space that freed.
    pub fn mark_deleted(&mut self, path: &str, freed_bytes: u64)
        requires
            old(self)@.wf(),
            lookup(old(self)@.results, path@) is Some ==> old(self)@.freed_space + freed_bytes <= u64::MAX,
        ensures
            final(self)@ == old(self)@.after_mark_deleted(path@, freed_bytes),
            final(self)@.wf(),
    {
        if let Some(idx) = self.index_of(path) {
            proof {
                lemma_lookup_bounds(self@.results, path@);
            }
            self.results[idx].status = FolderStatus::Deleted;
            self.freed_space = self.freed_space + freed_bytes;
            self.filter_dirty = true;
            proof {
                assert(self@.results =~= old(self)@.results.update(
                    idx as int,
                    with_status(old(self)@.results[idx as int], FolderStatus::Deleted),
                ));
                lemma_wf_update(old(self)@, self@, idx as int);
                assert(self@ =~= old(self)@.after_mark_deleted(path@, freed_bytes));
            }
        }
    }

    /// Records that deleting a directory failed, and why.
    pub fn mark_error(&mut self, path: &str, message: String)
        requires
            old(self)@.wf(),
        ensures
            final(self)@ == old(self)@.after_mark_error(path@, message),
            final(self)@.wf(),
    {
        if let Some(idx) = self.index_of(path) {
            proof {
                lemma_lookup_bounds(self@.results, path@);
            }
            let ghost m = message;
            self.results[idx].status = FolderStatus::Error;
            self.results[idx].error_message = Some(message);
            self.filter_dirty = true;
            proof {
                assert(self@.results =~= old(self)@.results.update(
                    idx as int,
                    FolderResult { status: FolderStatus::Error, error_message: Some(m), ..old(self)@.results[idx as int] },
                ));
                lemma_wf_update(old(self)@, self@, idx as int);
                assert(self@ =~= old(self)@.after_mark_error(path@, m));
            }
        }
    }

    /// Records the name of the project that a directory belongs to.
    pub fn update_project_name(&mut self, path: &str, name: Option<String>)
        requires
            old(self)@.wf(),
        ensures
            final(self)@ == old(self)@.after_project_name(path@, name),
            final(self)@.wf(),
    {
        if let Some(idx) = self.index_of(path) {
            proof {
                lemma_lookup_bounds(self@.results, path@);
            }
            let ghost n = name;
            self.results[idx].project_name = name;
            proof {
                assert(self@.results =~= old(self)@.results.update(
                    idx as int,
                    FolderResult { project_name: n, ..old(self)@.results[idx as int] },
                ));
                lemma_wf_update(old(self)@, self@, idx as int);
                assert(self@ =~= old(self)@.after_project_name(path@, n));
            }
        }
    }

    /// Brings a directory back from the trash: it is found again and its size no
    /// longer counts as freed.
    pub fn restore_from_undo(&mut self, original_path: &str, size_bytes: u64)
        requires
            old(self)@.wf(),
        ensures
            final(self)@ == old(self)@.after_restore(original_path@, size_bytes),
            final(self)@.wf(),
    {
        if let Some(idx) = self.index_of(original_path) {
            proof {
                lemma_lookup_bounds(self@.results, original_path@);
            }
            self.results[idx].status = FolderStatus::Found;
            self.freed_space = self.freed_space.saturating_sub(size_bytes);
            self.filter_dirty = true;
            proof {
                assert(self@.results =~= old(self)@.results.update(
                    idx as int,
                    with_status(old(self)@.results[idx as int], FolderStatus::Found),
                ));
                lemma_wf_update(old(self)@, self@, idx as int);
                assert(self@ =~= old(self)@.after_restore(original_path@, size_bytes));
            }
        }
    }
}


/// Larger values first: -1 when `x` comes before `y`.
pub open spec fn desc_order(x: u64, y: u64) -> int {
    if x > y { -1 } else if x < y { 1 } else { 0 }
}

/// How two results compare in a sort order: largest first by size, newest first
/// by modification time, by path component by component.
pub open spec fn result_order(mode: SortMode) -> spec_fn(FolderResult, FolderResult) -> int {
    match mode {
        SortMode::Size => |a: FolderResult, b: FolderResult| desc_order(a.size_bytes, b.size_bytes),
        SortMode::LastMod => |a: FolderResult, b: FolderResult| desc_order(a.newest_ms, b.newest_ms),
        SortMode::Path => |a: FolderResult, b: FolderResult| path_order(a.path@, b.path@),
    }
}

pub proof fn lemma_result_order_preorder(mode: SortMode)
    ensures
        is_preorder(result_order(mode)),
{
    let ord = result_order(mode);
    match mode {
        SortMode::Path => {
            assert forall|x: FolderResult, y: FolderResult| #[trigger] ord(x, y) == -ord(y, x) by {
                crate::paths::lemma_path_order_antisym(x.path@, y.path@);
            }
            assert forall|x: FolderResult, y: FolderResult| -1 <= #[trigger] ord(x, y) <= 1 by {
                crate::paths::lemma_path_order_antisym(x.path@, y.path@);
            }
            assert forall|x: FolderResult, y: FolderResult, z: FolderResult|
                #![trigger ord(x, y), ord(y, z)]
                ord(x, y) <= 0 && ord(y, z) <= 0 implies ord(x, z) <= 0 by {
                crate::paths::lemma_path_order_trans(x.path@, y.path@, z.path@);
            }
            assert forall|x: FolderResult, y: FolderResult, z: FolderResult|
                #![trigger ord(x, y), ord(x, z)]
                ord(x, y) == 0 implies ord(x, z) == ord(y, z) by {
                crate::paths::lemma_path_order_zero(x.path@, y.path@);
            }
        },
        _ => {},
    }
}

/// Whether a result shows in the list: not below the minimum size (unknown sizes
/// always show), and holding the query in its path when there is a query, both
/// taken in lower case.
pub open spec fn passes_filter(r: FolderResult, query: Seq<char>, min_size: Option<u64>) -> bool {
    let m: u64 = match min_size {
        Some(v) => v,
        None => 0,
    };
    &&& !(m > 0 && r.size_bytes < m && r.size_bytes > 0)
    &&& (query.len() == 0 || crate::text::contains_seq(crate::text::lowercase(r.path@), crate::text::lowercase(query)))
}

/// The indices, in order, of the first `k` results that show in the list.
pub open spec fn visible_upto(rs: Seq<FolderResult>, query: Seq<char>, min_size: Option<u64>, k: int) -> Seq<usize>
    decreases k,
{
    if k <= 0 {
        seq![]
    } else {
        let prev = visible_upto(rs, query, min_size, k - 1);
        if passes_filter(rs[k - 1], query, min_size) {
            prev.push((k - 1) as usize)
        } else {
            prev
        }
    }
}

pub proof fn lemma_visible_bounds(rs: Seq<FolderResult>, query: Seq<char>, min_size: Option<u64>, k: int)
    requires
        0 <= k <= rs.len(),
        rs.len() <= usize::MAX,
    ensures
        visible_upto(rs, query, min_size, k).len() <= k,
        forall|i: int| 0 <= i < visible_upto(rs, query, min_size, k).len()
            ==> #[trigger] visible_upto(rs, query, min_size, k)[i] < k,
    decreases k,
{
    if k > 0 {
        lemma_visible_bounds(rs, query, min_size, k - 1);
    }
}

/// The selection after the list changed: the first row of an empty list, else
/// moved up into the list.
pub open spec fn clamped_selection(sel: usize, len: int) -> usize {
    if len <= 0 {
        0
    } else if sel >= len {
        (len - 1) as usize
    } else {
        sel
    }
}

/// The scroll offset that keeps the selected row inside a window of `h` rows.
pub open spec fn scrolled_to(scroll: usize, sel: usize, h: usize) -> usize {
    if h == 0 {
        scroll
    } else if sel < scroll {
        sel
    } else if sel >= scroll + h {
        (sel - h + 1) as usize
    } else {
        scroll
    }
}

fn larger_first(a: &FolderResult, b: &FolderResult) -> (r: i8)
    ensures
        r == desc_order(a.size_bytes, b.size_bytes),
{
    if a.size_bytes > b.size_bytes {
        -1
    } else if a.size_bytes < b.size_bytes {
        1
    } else {
        0
    }
}

fn newer_first(a: &FolderResult, b: &FolderResult) -> (r: i8)
    ensures
        r == desc_order(a.newest_ms, b.newest_ms),
{
    if a.newest_ms > b.newest_ms {
        -1
    } else if a.newest_ms < b.newest_ms {
        1
    } else {
        0
    }
}

fn path_first(a: &FolderResult, b: &FolderResult) -> (r: i8)
    ensures
        r == path_order(a.path@, b.path@),
{
    crate::paths::compare_paths(a.path.as_str(), b.path.as_str())
}

impl AppView {
    /// The list once `rs` is in place: filtered anew, the selection clamped and
    /// kept in view, nothing left to redo.
    pub open spec fn rebuilt(self, rs: Seq<FolderResult>) -> AppView {
        let f = visible_upto(rs, self.search_query, self.min_size, rs.len() as int);
        let sel = clamped_selection(self.selected_index, f.len() as int);
        AppView {
            results: rs,
            filtered_indices: f,
            selected_index: sel,
            scroll_offset: scrolled_to(self.scroll_offset, sel, self.list_height),
            filter_dirty: false,
            sort_dirty: false,
            ..self
        }
    }

    pub open spec fn after_ensure_visible(self) -> AppView {
        AppView { scroll_offset: scrolled_to(self.scroll_offset, self.selected_index, self.list_height), ..self }
    }
}

impl App {
    fn ensure_visible(&mut self)
        requires
            old(self).scroll_offset + old(self).list_height <= usize::MAX,
        ensures
            final(self)@ == old(self)@.after_ensure_visible(),
    {
        let h = self.list_height;
        if h == 0 {
            assert(self@ =~= old(self)@.after_ensure_visible());
            return;
        }
        if self.selected_index < self.scroll_offset {
            self.scroll_offset = self.selected_index;
        } else if self.selected_index >= self.scroll_offset + h {
            self.scroll_offset = self.selected_index - h + 1;
        }
        assert(self@ =~= old(self)@.after_ensure_visible());
    }

    fn sort_results(rs: Vec<FolderResult>, mode: SortMode) -> (res: Vec<FolderResult>)
        ensures
            is_stable_sort(rs@, res@, result_order(mode)),
            sum_sizes(res@) == sum_sizes(rs@),
    {
        proof {
            lemma_result_order_preorder(mode);
        }
        match mode {
            SortMode::Size => crate::sorting::stable_sort(
                rs,
                larger_first,
                Ghost(result_order(mode)),
                Ghost(size_weight()),
            ),
            SortMode::LastMod => crate::sorting::stable_sort(
                rs,
                newer_first,
                Ghost(result_order(mode)),
                Ghost(size_weight()),
            ),
            SortMode::Path => crate::sorting::stable_sort(
                rs,
                path_first,
                Ghost(result_order(mode)),
                Ghost(size_weight()),
            ),
        }
    }

    #[verifier::rlimit(60)]
    /// Sorts the results again if a size or the order changed, and recomputes which
    /// results show: those that pass the minimum size and hold the query.
    pub fn rebuild_filter_if_dirty(&mut self)
        requires
            old(self)@.wf(),
        ensures
            !old(self)@.filter_dirty ==> final(self)@ == old(self)@,
            old(self)@.filter_dirty && old(self)@.sort_dirty ==> is_stable_sort(
                old(self)@.results,
                final(self)@.results,
                result_order(old(self)@.sort_mode),
            ) && final(self)@ == old(self)@.rebuilt(final(self)@.results),
            old(self)@.filter_dirty && !old(self)@.sort_dirty ==> final(self)@ == old(self)@.rebuilt(old(self)@.results),
            final(self)@.wf(),
    {
        if !self.filter_dirty {
            return;
        }
        self.filter_dirty = false;
        if self.sort_dirty {
            self.sort_dirty = false;
            let mut rs: Vec<FolderResult> = Vec::new();
            std::mem::swap(&mut rs, &mut self.results);
            self.results = Self::sort_results(rs, self.sort_mode);
        }
        let ghost rs = self.results@;
        let query = crate::text::chars_of(self.search_query.as_str());
        let query_lower = crate::text::chars_of(crate::text::to_lowercase(self.search_query.as_str()).as_str());
        let min_size: u64 = match self.min_size {
            Some(v) => v,
            None => 0,
        };
        let mut filtered: Vec<usize> = Vec::new();
        let n = self.results.len();
        let mut i: usize = 0;
        while i < n
            invariant
                n == self.results@.len(),
                rs == self.results@,
                i <= n,
                query@ == self.search_query@,
                query_lower@ == crate::text::lowercase(self.search_query@),
                min_size == (match self.min_size {
                    Some(v) => v,
                    None => 0u64,
                }),
                filtered@ == visible_upto(rs, self.search_query@, self.min_size, i as int),
            decreases n - i,
        {
            let r = &self.results[i];
            let mut keep = !(min_size > 0 && r.size_bytes < min_size && r.size_bytes > 0);
            if keep && query.len() > 0 {
                let lower = crate::text::chars_of(crate::text::to_lowercase(r.path.as_str()).as_str());
                keep = crate::text::contains_chars(&lower, &query_lower);
            }
            assert(keep == passes_filter(rs[i as int], self.search_query@, self.min_size));
            if keep {
                filtered.push(i);
            }
            i = i + 1;
        }
        self.filtered_indices = filtered;
        if self.filtered_indices.len() == 0 {
            self.selected_index = 0;
        } else if self.selected_index >= self.filtered_indices.len() {
            self.selected_index = self.filtered_indices.len() - 1;
        }
        proof {
            lemma_visible_bounds(rs, self.search_query@, self.min_size, n as int);
        }
        self.ensure_visible();
        proof {
            assert(self@ =~= old(self)@.rebuilt(rs));
        }
    }
}


/// The selection with `p` added, unless a path naming the same directory is in it
/// already (then it stays as it is, as a set keeps its first copy).
pub open spec fn set_insert(sel: Seq<String>, p: String) -> Seq<String> {
    if selection_has(sel, p@) {
        sel
    } else {
        sel.push(p)
    }
}

/// Every path of `ps` is among the selected ones.
pub open spec fn covers(sel: Seq<String>, ps: Seq<String>) -> bool {
    forall|i: int| 0 <= i < ps.len() ==> selection_has(sel, #[trigger] ps[i]@)
}

/// The selection without the paths that name the same directory as `p`.
pub open spec fn set_remove(sel: Seq<String>, p: Seq<char>) -> Seq<String>
    decreases sel.len(),
{
    if sel.len() == 0 {
        seq![]
    } else if same_path(sel.last()@, p) {
        set_remove(sel.drop_last(), p)
    } else {
        set_remove(sel.drop_last(), p).push(sel.last())
    }
}

/// The selection with the result at filtered position `i` added when it is still
/// found (results being deleted or gone cannot be selected).
pub open spec fn add_if_found(sel: Seq<String>, rs: Seq<FolderResult>, f: Seq<usize>, i: int) -> Seq<String> {
    if 0 <= i < f.len() && f[i] < rs.len() && rs[f[i] as int].status == FolderStatus::Found {
        set_insert(sel, rs[f[i] as int].path)
    } else {
        sel
    }
}

/// The selection made of the found results at filtered positions `lo` up to `k`
/// (exclusive).
pub open spec fn select_range(rs: Seq<FolderResult>, f: Seq<usize>, lo: int, k: int) -> Seq<String>
    decreases k - lo,
{
    if k <= lo {
        seq![]
    } else {
        add_if_found(select_range(rs, f, lo, k - 1), rs, f, k - 1)
    }
}

pub proof fn lemma_set_insert_distinct(sel: Seq<String>, p: String)
    requires
        distinct_paths(sel),
    ensures
        distinct_paths(set_insert(sel, p)),
        forall|q: Seq<char>| selection_has(set_insert(sel, p), q) <==> (selection_has(sel, q) || same_path(p@, q)),
{
    let t = set_insert(sel, p);
    if !selection_has(sel, p@) {
        assert forall|i: int, j: int| 0 <= i < t.len() && 0 <= j < t.len() && i != j implies !same_path(#[trigger] t[i]@, #[trigger] t[j]@) by {
            if i == sel.len() as int {
                assert(t[i] == p);
                assert(t[j] == sel[j]);
                if same_path(t[i]@, t[j]@) {
                    assert(same_path(sel[j]@, p@));
                }
            } else if j == sel.len() as int {
                assert(t[j] == p);
                assert(t[i] == sel[i]);
            } else {
                assert(t[i] == sel[i] && t[j] == sel[j]);
            }
        }
        assert forall|q: Seq<char>| selection_has(t, q) <==> (selection_has(sel, q) || same_path(p@, q)) by {
            if selection_has(sel, q) {
                let i = choose|i: int| 0 <= i < sel.len() && same_path(#[trigger] sel[i]@, q);
                assert(t[i] == sel[i]);
            }
            if same_path(p@, q) {
                assert(t[sel.len() as int] == p);
            }
            if selection_has(t, q) {
                let i = choose|i: int| 0 <= i < t.len() && same_path(#[trigger] t[i]@, q);
                if i < sel.len() {
                    assert(t[i] == sel[i]);
                }
            }
        }
    } else {
        assert forall|q: Seq<char>| selection_has(t, q) <==> (selection_has(sel, q) || same_path(p@, q)) by {
            if same_path(p@, q) {
                let i = choose|i: int| 0 <= i < sel.len() && same_path(#[trigger] sel[i]@, p@);
                assert(same_path(sel[i]@, q));
            }
        }
    }
}

pub proof fn lemma_select_range_distinct(rs: Seq<FolderResult>, f: Seq<usize>, lo: int, k: int)
    ensures
        distinct_paths(select_range(rs, f, lo, k)),
    decreases k - lo,
{
    if k > lo {
        lemma_select_range_distinct(rs, f, lo, k - 1);
        let prev = select_range(rs, f, lo, k - 1);
        if 0 <= k - 1 < f.len() && f[k - 1] < rs.len() && rs[f[k - 1] as int].status == FolderStatus::Found {
            lemma_set_insert_distinct(prev, rs[f[k - 1] as int].path);
        }
    }
}

/// Filtered positions past the end of the list add nothing to a range selection.
pub proof fn lemma_select_range_past_end(rs: Seq<FolderResult>, f: Seq<usize>, lo: int, k: int)
    requires
        lo <= f.len() <= k,
    ensures
        select_range(rs, f, lo, k) == select_range(rs, f, lo, f.len() as int),
    decreases k - f.len(),
{
    if k > f.len() {
        lemma_select_range_past_end(rs, f, lo, k - 1);
    }
}

pub proof fn lemma_set_remove_distinct(sel: Seq<String>, p: Seq<char>)
    requires
        distinct_paths(sel),
    ensures
        distinct_paths(set_remove(sel, p)),
        forall|j: int| 0 <= j < set_remove(sel, p).len() ==> exists|i: int| 0 <= i < sel.len() && sel[i] == #[trigger] set_remove(sel, p)[j],
        forall|q: Seq<char>| selection_has(set_remove(sel, p), q) ==> selection_has(sel, q),
    decreases sel.len(),
{
    if sel.len() > 0 {
        let d = sel.drop_last();
        assert(distinct_paths(d)) by {
            assert forall|i: int, j: int| 0 <= i < d.len() && 0 <= j < d.len() && i != j implies !same_path(#[trigger] d[i]@, #[trigger] d[j]@) by {
                assert(d[i] == sel[i] && d[j] == sel[j]);
            }
        }
        lemma_set_remove_distinct(d, p);
        let r = set_remove(d, p);
        assert forall|q: Seq<char>| selection_has(r, q) implies selection_has(sel, q) by {
            let i = choose|i: int| 0 <= i < d.len() && same_path(#[trigger] d[i]@, q);
            assert(sel[i] == d[i]);
        }
        if !same_path(sel.last()@, p) {
            let t = r.push(sel.last());
            assert forall|j: int| 0 <= j < t.len() implies exists|i: int| 0 <= i < sel.len() && sel[i] == #[trigger] t[j] by {
                if j < r.len() {
                    assert(t[j] == r[j]);
                    let i = choose|i: int| 0 <= i < d.len() && d[i] == r[j];
                    assert(sel[i] == d[i]);
                } else {
                    assert(sel[sel.len() - 1] == t[j]);
                }
            }
            assert forall|i: int, j: int| 0 <= i < t.len() && 0 <= j < t.len() && i != j implies !same_path(#[trigger] t[i]@, #[trigger] t[j]@) by {
                if i == r.len() as int && j < r.len() {
                    let k = choose|k: int| 0 <= k < d.len() && d[k] == r[j];
                    assert(t[j] == d[k]);
                    assert(sel[k] == d[k]);
                    assert(sel[sel.len() - 1] == t[i]);
                } else if j == r.len() as int && i < r.len() {
                    let k = choose|k: int| 0 <= k < d.len() && d[k] == r[i];
                    assert(t[i] == d[k]);
                    assert(sel[k] == d[k]);
                    assert(sel[sel.len() - 1] == t[j]);
                } else if i < r.len() && j < r.len() {
                    assert(t[i] == r[i] && t[j] == r[j]);
                }
            }
            assert forall|q: Seq<char>| selection_has(t, q) implies selection_has(sel, q) by {
                let i = choose|i: int| 0 <= i < t.len() && same_path(#[trigger] t[i]@, q);
                if i < r.len() {
                    assert(t[i] == r[i]);
                    assert(selection_has(r, q));
                } else {
                    assert(sel[sel.len() - 1] == t[i]);
                }
            }
        }
    }
}

/// The number of a signed value clamped to `[lo, hi]`.
pub open spec fn clamp_int(v: int, lo: int, hi: int) -> int {
    if v < lo {
        lo
    } else if v > hi {
        hi
    } else {
        v
    }
}

/// Whether `move_selection(delta)` can be done without overflow: the cursor
/// moves in `i32` arithmetic, and clamping needs a non-empty range.
pub open spec fn move_fits(v: AppView, delta: i32) -> bool {
    v.filtered_indices.len() > 0 ==> {
        &&& i32::MIN <= (v.selected_index as i32) + delta <= i32::MAX
        &&& (v.filtered_indices.len() as i32) >= 1
    }
}

impl AppView {
    /// In range-select mode, the selection is the found results between the
    /// anchor and the cursor.
    pub open spec fn after_range_update(self) -> AppView {
        match self.range_start {
            None => self,
            Some(s) => {
                let lo = if s <= self.selected_index { s } else { self.selected_index };
                let hi = if s <= self.selected_index { self.selected_index } else { s };
                AppView {
                    selected_paths: select_range(self.results, self.filtered_indices, lo as int, hi + 1),
                    ..self
                }
            },
        }
    }

    pub open spec fn range_if_active(self) -> AppView {
        if self.mode == AppMode::RangeSelect {
            self.after_range_update()
        } else {
            self
        }
    }

    pub open spec fn after_move(self, delta: i32) -> AppView {
        let v0 = AppView { pending_delete: None, ..self };
        let len = self.filtered_indices.len();
        if len == 0 {
            v0
        } else {
            let ni = (self.selected_index as i32) + delta;
            let sel = clamp_int(ni, 0, (len as i32) - 1) as usize;
            AppView { selected_index: sel, ..v0 }.range_if_active().after_ensure_visible()
        }
    }

    pub open spec fn after_home(self) -> AppView {
        AppView { selected_index: 0, scroll_offset: 0, ..self }.range_if_active()
    }

    pub open spec fn after_end(self) -> AppView {
        let v1 = if self.filtered_indices.len() > 0 {
            AppView { selected_index: (self.filtered_indices.len() - 1) as usize, ..self }.after_ensure_visible()
        } else {
            self
        };
        v1.range_if_active()
    }
}

impl App {
    fn update_range_selection(&mut self)
        requires
            old(self)@.wf(),
        ensures
            final(self)@ == old(self)@.after_range_update(),
            final(self)@.wf(),
    {
        let start = match self.range_start {
            Some(s) => s,
            None => return,
        };
        let end = self.selected_index;
        let (lo, hi) = if start <= end { (start, end) } else { (end, start) };
        let ghost rs = self.results@;
        let ghost f = self.filtered_indices@;
        let mut sel: Vec<String> = Vec::new();
        let n = self.filtered_indices.len();
        let mut i = lo;
        assert(sel@ =~= select_range(rs, f, lo as int, lo as int));
        while i <= hi && i < n
            invariant
                rs == self.results@,
                f == self.filtered_indices@,
                n == f.len(),
                lo <= i,
                i <= hi + 1,
                lo <= n ==> i <= n,
                old(self)@.wf(),
                self == old(self),
                sel@ == select_range(rs, f, lo as int, i as int),
                distinct_paths(sel@),
            decreases n - i,
        {
            let idx = self.filtered_indices[i];
            if self.results[idx].status == FolderStatus::Found {
                let p = self.results[idx].path.clone();
                Self::insert_path(&mut sel, p);
            }
            proof {
                lemma_select_range_distinct(rs, f, lo as int, i + 1);
            }
            i = i + 1;
        }
        proof {
            if i <= hi {
                if lo <= n {
                    lemma_select_range_past_end(rs, f, lo as int, hi + 1);
                } else {
                    lemma_select_range_empty_from(rs, f, lo as int, hi + 1);
                    lemma_select_range_empty_from(rs, f, lo as int, i as int);
                }
            }
        }
        self.selected_paths = sel;
        assert(self@ =~= old(self)@.after_range_update());
    }

    /// Adds a path to a selection unless a path naming the same directory is in it.
    fn insert_path(sel: &mut Vec<String>, p: String)
        requires
            distinct_paths(old(sel)@),
        ensures
            final(sel)@ == set_insert(old(sel)@, p),
            distinct_paths(final(sel)@),
    {
        let ghost pv = p;
        proof {
            lemma_set_insert_distinct(old(sel)@, p);
        }
        if !Self::selection_contains(sel, p.as_str()) {
            sel.push(p);
        }
    }

    /// Whether a path is among the selected ones (the same directory, as paths compare).
    pub fn is_selected(&self, path: &str) -> (r: bool)
        ensures
            r == selection_has(self@.selected_paths, path@),
    {
        Self::selection_contains(&self.selected_paths, path)
    }

    fn selection_contains(sel: &Vec<String>, p: &str) -> (r: bool)
        ensures
            r == selection_has(sel@, p@),
    {
        let mut i: usize = 0;
        while i < sel.len()
            invariant
                i <= sel@.len(),
                forall|j: int| 0 <= j < i ==> !same_path(#[trigger] sel@[j]@, p@),
            decreases sel.len() - i,
        {
            if crate::paths::paths_equal(sel[i].as_str(), p) {
                return true;
            }
            i = i + 1;
        }
        false
    }

    #[verifier::rlimit(40)]
    /// Moves the cursor by `delta` rows, clamped to the list; any pending delete is
    /// dropped, and in range-select mode the selection follows.
    pub fn move_selection(&mut self, delta: i32)
        requires
            old(self)@.wf(),
            move_fits(old(self)@, delta),
        ensures
            final(self)@ == old(self)@.after_move(delta),
            final(self)@.wf(),
    {
        self.pending_delete = None;
        let len = self.filtered_indices.len();
        if len == 0 {
            assert(self@ =~= old(self)@.after_move(delta));
            return;
        }
        let new_idx: i32 = self.selected_index as i32 + delta;
        let hi: i32 = len as i32 - 1;
        let clamped: i32 = if new_idx < 0 {
            0
        } else if new_idx > hi {
            hi
        } else {
            new_idx
        };
        self.selected_index = clamped as usize;
        proof {
            assert(hi as int <= len - 1) by {
                assert((len as i32) as int <= len);
            }
        }
        if self.mode == AppMode::RangeSelect {
            self.update_range_selection();
        }
        self.ensure_visible();
        assert(self@ =~= old(self)@.after_move(delta));
    }

    /// Jumps to the first row.
    pub fn go_home(&mut self)
        requires
            old(self)@.wf(),
        ensures
            final(self)@ == old(self)@.after_home(),
            final(self)@.wf(),
    {
        self.selected_index = 0;
        self.scroll_offset = 0;
        if self.mode == AppMode::RangeSelect {
            self.update_range_selection();
        }
        assert(self@ =~= old(self)@.after_home());
    }

    /// Jumps to the last row.
    pub fn go_end(&mut self)
        requires
            old(self)@.wf(),
        ensures
            final(self)@ == old(self)@.after_end(),
            final(self)@.wf(),
    {
        if self.filtered_indices.len() > 0 {
            self.selected_index = self.filtered_indices.len() - 1;
            self.ensure_visible();
        }
        if self.mode == AppMode::RangeSelect {
            self.update_range_selection();
        }
        assert(self@ =~= old(self)@.after_end());
    }
}

pub proof fn lemma_select_range_empty_from(rs: Seq<FolderResult>, f: Seq<usize>, lo: int, k: int)
    requires
        lo >= f.len(),
    ensures
        select_range(rs, f, lo, k) =~= Seq::<String>::empty(),
    decreases k - lo,
{
    if k > lo {
        lemma_select_range_empty_from(rs, f, lo, k - 1);
    }
}


/// Deleting from the selected paths in turn: for each one that finds a result that
/// is still found, the result is marked as being deleted and the path goes out with
/// the size to delete. The results and the items after the first `k` paths.
pub open spec fn enter_fold(rs: Seq<FolderResult>, sel: Seq<String>, k: int) -> (Seq<FolderResult>, Seq<(String, u64)>)
    decreases k,
{
    if k <= 0 {
        (rs, seq![])
    } else {
        let prev = enter_fold(rs, sel, k - 1);
        let p = sel[k - 1];
        match lookup(prev.0, p@) {
            Some(i) => if prev.0[i].status == FolderStatus::Found {
                (prev.0.update(i, with_status(prev.0[i], FolderStatus::Deleting)), prev.1.push((p, prev.0[i].size_bytes)))
            } else {
                prev
            },
            None => prev,
        }
    }
}

pub open spec fn is_multi(m: AppMode) -> bool {
    m == AppMode::MultiSelect || m == AppMode::RangeSelect
}

impl AppView {
    /// The result under the cursor, as an index into the results.
    pub open spec fn cursor_result(self) -> int {
        self.filtered_indices[self.selected_index as int] as int
    }

    /// Space or Delete: in a select mode the cursor's path is toggled in the
    /// selection; otherwise a found result under the cursor becomes the pending
    /// delete, to be confirmed.
    pub open spec fn after_space(self) -> AppView {
        if self.filtered_indices.len() == 0 {
            self
        } else {
            let r = self.results[self.cursor_result()];
            if is_multi(self.mode) {
                if selection_has(self.selected_paths, r.path@) {
                    AppView { selected_paths: set_remove(self.selected_paths, r.path@), ..self }
                } else {
                    AppView { selected_paths: self.selected_paths.push(r.path), ..self }
                }
            } else if r.status != FolderStatus::Found {
                self
            } else {
                AppView { pending_delete: Some(r.path), ..self }
            }
        }
    }

    /// Confirming the pending delete: the pending path is cleared, and if it finds a
    /// result that is still found, that result is marked as being deleted.
    pub open spec fn after_confirm(self) -> AppView {
        match self.pending_delete {
            None => self,
            Some(p) => match lookup(self.results, p@) {
                Some(i) => if self.results[i].status == FolderStatus::Found {
                    AppView {
                        pending_delete: None,
                        results: self.results.update(i, with_status(self.results[i], FolderStatus::Deleting)),
                        filter_dirty: true,
                        ..self
                    }
                } else {
                    AppView { pending_delete: None, ..self }
                },
                None => AppView { pending_delete: None, ..self },
            },
        }
    }

    pub open spec fn confirm_output(self) -> Option<(String, u64)> {
        match self.pending_delete {
            None => None,
            Some(p) => match lookup(self.results, p@) {
                Some(i) => if self.results[i].status == FolderStatus::Found {
                    Some((p, self.results[i].size_bytes))
                } else {
                    None
                },
                None => None,
            },
        }
    }

    /// Enter: leaves search mode; in a select mode with a selection, marks the
    /// selected results that are still found as being deleted and empties the
    /// selection.
    pub open spec fn after_enter(self) -> AppView {
        if self.mode == AppMode::Search {
            AppView { mode: AppMode::Normal, ..self }
        } else if is_multi(self.mode) && self.selected_paths.len() > 0 {
            let fold = enter_fold(self.results, self.selected_paths, self.selected_paths.len() as int);
            if fold.1.len() > 0 {
                AppView { results: fold.0, selected_paths: seq![], mode: AppMode::Deleting, filter_dirty: true, ..self }
            } else {
                AppView { results: fold.0, selected_paths: seq![], ..self }
            }
        } else {
            self
        }
    }

    pub open spec fn enter_output(self) -> Seq<(String, u64)> {
        if self.mode != AppMode::Search && is_multi(self.mode) && self.selected_paths.len() > 0 {
            enter_fold(self.results, self.selected_paths, self.selected_paths.len() as int).1
        } else {
            seq![]
        }
    }

    pub open spec fn after_toggle_multi(self) -> AppView {
        if self.mode == AppMode::MultiSelect {
            AppView { mode: AppMode::Normal, selected_paths: seq![], range_start: None, ..self }
        } else {
            AppView { mode: AppMode::MultiSelect, ..self }
        }
    }

    /// The paths of the found results in the list, each once: what select-all selects.
    pub open spec fn selectable(self) -> Seq<String> {
        select_range(self.results, self.filtered_indices, 0, self.filtered_indices.len() as int)
    }

    /// Select all / deselect all: in a select mode, clears the selection when every
    /// found result in the list is already selected, else selects exactly those.
    pub open spec fn after_select_all(self) -> AppView {
        if !is_multi(self.mode) {
            self
        } else if covers(self.selected_paths, self.selectable()) {
            AppView { selected_paths: seq![], ..self }
        } else {
            AppView { selected_paths: self.selectable(), ..self }
        }
    }

    pub open spec fn after_toggle_range(self) -> AppView {
        if self.mode == AppMode::RangeSelect {
            AppView { mode: AppMode::MultiSelect, range_start: None, ..self }
        } else {
            AppView { mode: AppMode::RangeSelect, range_start: Some(self.selected_index), ..self }
        }
    }

    pub open spec fn after_enter_search(self) -> AppView {
        AppView { mode: AppMode::Search, search_query: seq![], filter_dirty: true, ..self }
    }

    pub open spec fn after_push_char(self, c: char) -> AppView {
        AppView { search_query: self.search_query.push(c), filter_dirty: true, ..self }
    }

    pub open spec fn after_pop_char(self) -> AppView {
        AppView {
            search_query: if self.search_query.len() > 0 { self.search_query.drop_last() } else { self.search_query },
            filter_dirty: true,
            ..self
        }
    }

    pub open spec fn after_exit_search(self) -> AppView {
        AppView { mode: AppMode::Normal, search_query: seq![], filter_dirty: true, ..self }
    }

    /// Escape: leaves search (clearing the query), help, or a select mode (clearing
    /// the selection); does nothing otherwise.
    pub open spec fn after_escape(self) -> AppView {
        match self.mode {
            AppMode::Search => self.after_exit_search(),
            AppMode::Help => AppView { mode: AppMode::Normal, ..self },
            AppMode::MultiSelect | AppMode::RangeSelect => AppView {
                mode: AppMode::Normal,
                selected_paths: seq![],
                range_start: None,
                ..self
            },
            _ => self,
        }
    }

    pub open spec fn after_cycle_sort(self) -> AppView {
        AppView { sort_mode: sort_mode_next(self.sort_mode), sort_dirty: true, filter_dirty: true, ..self }
    }
}

pub proof fn lemma_enter_fold(rs: Seq<FolderResult>, sel: Seq<String>, k: int)
    requires
        0 <= k <= sel.len(),
    ensures
        enter_fold(rs, sel, k).0.len() == rs.len(),
        forall|i: int| 0 <= i < rs.len() ==> (#[trigger] enter_fold(rs, sel, k).0[i]).path == rs[i].path,
        forall|i: int| 0 <= i < rs.len() ==> (#[trigger] enter_fold(rs, sel, k).0[i]).size_bytes == rs[i].size_bytes,
        sum_sizes(enter_fold(rs, sel, k).0) == sum_sizes(rs),
    decreases k,
{
    if k > 0 {
        lemma_enter_fold(rs, sel, k - 1);
        let prev = enter_fold(rs, sel, k - 1);
        lemma_lookup_bounds(prev.0, sel[k - 1]@);
        match lookup(prev.0, sel[k - 1]@) {
            Some(i) => {
                if prev.0[i].status == FolderStatus::Found {
                    crate::sorting::lemma_sum_update(prev.0, i, with_status(prev.0[i], FolderStatus::Deleting), size_weight());
                }
            },
            None => {},
        }
    }
}

impl App {
    /// Space or Delete on the cursor (see `after_space`); nothing is deleted at once,
    /// so the answer is always `None`.
    pub fn handle_space_or_delete(&mut self) -> (r: Option<(String, u64)>)
        requires
            old(self)@.wf(),
        ensures
            final(self)@ == old(self)@.after_space(),
            final(self)@.wf(),
            r.is_none(),
    {
        if self.filtered_indices.len() == 0 {
            return None;
        }
        let idx = self.filtered_indices[self.selected_index];
        if self.mode == AppMode::MultiSelect || self.mode == AppMode::RangeSelect {
            let path = self.results[idx].path.clone();
            if Self::selection_contains(&self.selected_paths, path.as_str()) {
                let mut kept: Vec<String> = Vec::new();
                let mut old_sel: Vec<String> = Vec::new();
                std::mem::swap(&mut old_sel, &mut self.selected_paths);
                let ghost s0 = old_sel@;
                proof {
                    lemma_set_remove_distinct(s0, path@);
                }
                let mut j: usize = 0;
                while j < old_sel.len()
                    invariant
                        old_sel@ == s0,
                        j <= s0.len(),
                        kept@ == set_remove(s0.take(j as int), path@),
                    decreases old_sel.len() - j,
                {
                    assert(s0.take(j + 1).drop_last() =~= s0.take(j as int));
                    if !crate::paths::paths_equal(old_sel[j].as_str(), path.as_str()) {
                        kept.push(old_sel[j].clone());
                    }
                    j = j + 1;
                }
                assert(s0.take(s0.len() as int) =~= s0);
                self.selected_paths = kept;
            } else {
                proof {
                    lemma_set_insert_distinct(self.selected_paths@, path);
                }
                self.selected_paths.push(path);
            }
            assert(self@ =~= old(self)@.after_space());
            None
        } else {
            if self.results[idx].status != FolderStatus::Found {
                return None;
            }
            let path = self.results[idx].path.clone();
            self.pending_delete = Some(path);
            assert(self@ =~= old(self)@.after_space());
            None
        }
    }

    /// Confirms the pending delete (see `after_confirm`); the answer is the path and
    /// size to delete, if any.
    pub fn confirm_pending_delete(&mut self) -> (r: Option<(String, u64)>)
        requires
            old(self)@.wf(),
        ensures
            final(self)@ == old(self)@.after_confirm(),
            r == old(self)@.confirm_output(),
            final(self)@.wf(),
    {
        let pending = match self.pending_delete.take() {
            Some(p) => p,
            None => {
                return None;
            },
        };
        let idx = match self.index_of(pending.as_str()) {
            Some(i) => i,
            None => {
                assert(self@ =~= old(self)@.after_confirm());
                return None;
            },
        };
        proof {
            lemma_lookup_bounds(self@.results, pending@);
        }
        if self.results[idx].status == FolderStatus::Found {
            let size = self.results[idx].size_bytes;
            self.results[idx].status = FolderStatus::Deleting;
            self.filter_dirty = true;
            proof {
                assert(self@.results =~= old(self)@.results.update(
                    idx as int,
                    with_status(old(self)@.results[idx as int], FolderStatus::Deleting),
                ));
                lemma_wf_update(AppView { pending_delete: None, ..old(self)@ }, self@, idx as int);
                assert(self@ =~= old(self)@.after_confirm());
            }
            Some((pending, size))
        } else {
            assert(self@ =~= old(self)@.after_confirm());
            None
        }
    }

    /// Enter (see `after_enter`); the answer is the paths and sizes to delete.
    pub fn handle_enter(&mut self) -> (items: Vec<(String, u64)>)
        requires
            old(self)@.wf(),
        ensures
            final(self)@ == old(self)@.after_enter(),
            items@ == old(self)@.enter_output(),
            final(self)@.wf(),
    {
        if self.mode == AppMode::Search {
            self.mode = AppMode::Normal;
            assert(self@ =~= old(self)@.after_enter());
            return Vec::new();
        }
        if (self.mode == AppMode::MultiSelect || self.mode == AppMode::RangeSelect) && self.selected_paths.len() > 0 {
            let mut sel: Vec<String> = Vec::new();
            std::mem::swap(&mut sel, &mut self.selected_paths);
            let ghost s0 = sel@;
            let ghost rs0 = self.results@;
            let ghost v0 = self@;
            let mut items: Vec<(String, u64)> = Vec::new();
            let mut k: usize = 0;
            while k < sel.len()
                invariant
                    self@ == (AppView { results: self@.results, ..v0 }),
                    sel@ == s0,
                    k <= s0.len(),
                    self.results@ == enter_fold(rs0, s0, k as int).0,
                    items@ == enter_fold(rs0, s0, k as int).1,
                    self.results@.len() == rs0.len(),
                decreases sel.len() - k,
            {
                proof {
                    lemma_enter_fold(rs0, s0, k as int);
                }
                let path = sel[k].clone();
                match self.index_of(path.as_str()) {
                    Some(idx) => {
                        proof {
                            lemma_lookup_bounds(self@.results, path@);
                        }
                        if self.results[idx].status == FolderStatus::Found {
                            self.results[idx].status = FolderStatus::Deleting;
                            let size = self.results[idx].size_bytes;
                            items.push((path, size));
                        }
                    },
                    None => {},
                }
                proof {
                    assert(self.results@ =~= enter_fold(rs0, s0, k + 1).0);
                }
                k = k + 1;
            }
            proof {
                lemma_enter_fold(rs0, s0, s0.len() as int);
            }
            if items.len() > 0 {
                self.mode = AppMode::Deleting;
                self.filter_dirty = true;
            }
            assert(self@ =~= old(self)@.after_enter());
            items
        } else {
            assert(self@ =~= old(self)@.after_enter());
            Vec::new()
        }
    }

    /// Enters multi-select mode, or leaves it, clearing the selection and the anchor.
    pub fn toggle_multi_select(&mut self)
        requires
            old(self)@.wf(),
        ensures
            final(self)@ == old(self)@.after_toggle_multi(),
            final(self)@.wf(),
    {
        if self.mode == AppMode::MultiSelect {
            self.mode = AppMode::Normal;
            self.selected_paths = Vec::new();
            self.range_start = None;
        } else {
            self.mode = AppMode::MultiSelect;
        }
        assert(self@ =~= old(self)@.after_toggle_multi());
    }

    /// Select all / deselect all (see `after_select_all`).
    pub fn select_all(&mut self)
        requires
            old(self)@.wf(),
        ensures
            final(self)@ == old(self)@.after_select_all(),
            final(self)@.wf(),
    {
        if self.mode != AppMode::MultiSelect && self.mode != AppMode::RangeSelect {
            return;
        }
        let ghost rs = self.results@;
        let ghost f = self.filtered_indices@;
        let mut sel: Vec<String> = Vec::new();
        let n = self.filtered_indices.len();
        let mut i: usize = 0;
        assert(sel@ =~= select_range(rs, f, 0, 0));
        while i < n
            invariant
                rs == self.results@,
                f == self.filtered_indices@,
                n == f.len(),
                i <= n,
                old(self)@.wf(),
                self == old(self),
                sel@ == select_range(rs, f, 0, i as int),
                distinct_paths(sel@),
            decreases n - i,
        {
            let idx = self.filtered_indices[i];
            if self.results[idx].status == FolderStatus::Found {
                let p = self.results[idx].path.clone();
                Self::insert_path(&mut sel, p);
            }
            proof {
                lemma_select_range_distinct(rs, f, 0, i + 1);
            }
            i = i + 1;
        }
        let mut j: usize = 0;
        let mut all_selected = true;
        while j < sel.len()
            invariant
                j <= sel@.len(),
                all_selected == (forall|k: int| 0 <= k < j ==> selection_has(self@.selected_paths, #[trigger] sel@[k]@)),
            decreases sel.len() - j,
        {
            if !Self::selection_contains(&self.selected_paths, sel[j].as_str()) {
                all_selected = false;
            }
            j = j + 1;
        }
        if all_selected {
            self.selected_paths = Vec::new();
        } else {
            self.selected_paths = sel;
        }
        assert(self@ =~= old(self)@.after_select_all());
    }

    /// Enters range-select mode anchored at the cursor, or goes back to multi-select.
    pub fn toggle_range_select(&mut self)
        requires
            old(self)@.wf(),
        ensures
            final(self)@ == old(self)@.after_toggle_range(),
            final(self)@.wf(),
    {
        if self.mode == AppMode::RangeSelect {
            self.mode = AppMode::MultiSelect;
            self.range_start = None;
        } else {
            self.mode = AppMode::RangeSelect;
            self.range_start = Some(self.selected_index);
        }
        assert(self@ =~= old(self)@.after_toggle_range());
    }

    /// Opens the search with an empty query.
    pub fn enter_search(&mut self)
        requires
            old(self)@.wf(),
        ensures
            final(self)@ == old(self)@.after_enter_search(),
            final(self)@.wf(),
    {
        self.mode = AppMode::Search;
        crate::text::clear_string(&mut self.search_query);
        self.filter_dirty = true;
        assert(self@ =~= old(self)@.after_enter_search());
    }

    /// Types a character into the query.
    pub fn search_push_char(&mut self, ch: char)
        requires
            old(self)@.wf(),
        ensures
            final(self)@ == old(self)@.after_push_char(ch),
            final(self)@.wf(),
    {
        crate::text::push_char(&mut self.search_query, ch);
        self.filter_dirty = true;
        assert(self@ =~= old(self)@.after_push_char(ch));
    }

    /// Removes the last character of the query, if any.
    pub fn search_pop_char(&mut self)
        requires
            old(self)@.wf(),
        ensures
            final(self)@ == old(self)@.after_pop_char(),
            final(self)@.wf(),
    {
        let _ = crate::text::pop_char(&mut self.search_query);
        self.filter_dirty = true;
        assert(self@ =~= old(self)@.after_pop_char());
    }

    /// Leaves the search, clearing the query.
    pub fn exit_search(&mut self)
        requires
            old(self)@.wf(),
        ensures
            final(self)@ == old(self)@.after_exit_search(),
            final(self)@.wf(),
    {
        self.mode = AppMode::Normal;
        crate::text::clear_string(&mut self.search_query);
        self.filter_dirty = true;
        assert(self@ =~= old(self)@.after_exit_search());
    }

    /// Escape (see `after_escape`).
    pub fn handle_escape(&mut self)
        requires
            old(self)@.wf(),
        ensures
            final(self)@ == old(self)@.after_escape(),
            final(self)@.wf(),
    {
        match self.mode {
            AppMode::Search => self.exit_search(),
            AppMode::Help => {
                self.mode = AppMode::Normal;
            },
            AppMode::MultiSelect | AppMode::RangeSelect => {
                self.mode = AppMode::Normal;
                self.selected_paths = Vec::new();
                self.range_start = None;
            },
            _ => {},
        }
        assert(self@ =~= old(self)@.after_escape());
    }

    /// Moves to the next sort order; the list is to be sorted again.
    pub fn cycle_sort(&mut self)
        requires
            old(self)@.wf(),
        ensures
            final(self)@ == old(self)@.after_cycle_sort(),
            final(self)@.wf(),
    {
        self.sort_mode = self.sort_mode.next();
        self.sort_dirty = true;
        self.filter_dirty = true;
        assert(self@ =~= old(self)@.after_cycle_sort());
    }
}


/// The largest size among the results, 1 when there are none.
pub open spec fn max_size(rs: Seq<FolderResult>) -> u64
    decreases rs.len(),
{
    if rs.len() == 0 {
        1
    } else if rs.len() == 1 {
        rs[0].size_bytes
    } else {
        let m = max_size(rs.drop_last());
        if rs.last().size_bytes > m { rs.last().size_bytes } else { m }
    }
}

/// The undo entries still alive at `now`, and the trash paths of those that expired,
/// both in stack order.
pub open spec fn undo_split(u: Seq<UndoEntry>, now: u64) -> (Seq<UndoEntry>, Seq<String>)
    decreases u.len(),
{
    if u.len() == 0 {
        (seq![], seq![])
    } else {
        let prev = undo_split(u.drop_last(), now);
        if now >= u.last().expires_ms {
            (prev.0, prev.1.push(u.last().trash_path))
        } else {
            (prev.0.push(u.last()), prev.1)
        }
    }
}

/// How long ago `newest_ms` was at `now_ms`, as the list shows it.
pub open spec fn age_text(newest_ms: u64, now_ms: u64) -> Seq<char> {
    if newest_ms == 0 {
        "..."@
    } else if newest_ms > now_ms {
        "just now"@
    } else {
        let d = ((now_ms - newest_ms) / 1000) as nat;
        if d < 60 {
            "just now"@
        } else if d < 3600 {
            crate::text::decimal(d / 60) + "m ago"@
        } else if d < 86400 {
            crate::text::decimal(d / 3600) + "h ago"@
        } else if d < 2592000 {
            crate::text::decimal(d / 86400) + "d ago"@
        } else if d < 31536000 {
            crate::text::decimal(d / 2592000) + "mo ago"@
        } else {
            crate::text::decimal(d / 31536000) + "y ago"@
        }
    }
}

fn count_with(n: u64, unit: &str) -> (s: String)
    ensures
        s@ == crate::text::decimal(n as nat) + unit@,
{
    let mut s = String::new();
    crate::text::push_decimal(&mut s, n);
    crate::text::append_str(&mut s, unit);
    s
}

/// How long ago `newest_ms` was at `now_ms` ("...", "just now", "5m ago", "2d ago",
/// "8mo ago", "1y ago").
pub fn format_age_at(newest_ms: u64, now_ms: u64) -> (s: String)
    ensures
        s@ == age_text(newest_ms, now_ms),
{
    if newest_ms == 0 {
        return crate::text::string_of("...");
    }
    if newest_ms > now_ms {
        return crate::text::string_of("just now");
    }
    let diff_s = (now_ms - newest_ms) / 1000;
    if diff_s < 60 {
        crate::text::string_of("just now")
    } else if diff_s < 3600 {
        count_with(diff_s / 60, "m ago")
    } else if diff_s < 86400 {
        count_with(diff_s / 3600, "h ago")
    } else if diff_s < 2_592_000 {
        count_with(diff_s / 86400, "d ago")
    } else if diff_s < 31_536_000 {
        count_with(diff_s / 2_592_000, "mo ago")
    } else {
        count_with(diff_s / 31_536_000, "y ago")
    }
}

/// How long ago `newest_ms` is now, by the clock.
pub fn format_age(newest_ms: u64) -> (s: String)
    ensures
        exists|now: u64| s@ == age_text(newest_ms, now),
{
    let now = crate::clock::now_millis();
    format_age_at(newest_ms, now)
}

/// How long an undo entry lives, in milliseconds.
pub const UNDO_WINDOW_MS: u64 = 30_000;

/// How long the freed-space counter flashes, in milliseconds.
pub const FLASH_MS: u64 = 2000;

/// Whether the counter that flashes until `until` flashes at `now`.
pub open spec fn flashing_at(until: u64, now: u64) -> bool {
    now < until
}

pub open spec fn later_by(now: u64, d: u64) -> u64 {
    if now + d <= u64::MAX { (now + d) as u64 } else { u64::MAX }
}

impl App {
    /// The result under the cursor, if the list is not empty.
    pub fn get_selected_result(&self) -> (r: Option<&FolderResult>)
        requires
            self@.wf(),
        ensures
            match r {
                Some(x) => self@.selected_index < self@.filtered_indices.len() && *x == self@.results[self@.cursor_result()],
                None => self@.selected_index >= self@.filtered_indices.len(),
            },
    {
        if self.selected_index < self.filtered_indices.len() {
            let idx = self.filtered_indices[self.selected_index];
            Some(&self.results[idx])
        } else {
            None
        }
    }

    /// How many results the list shows.
    pub fn visible_count(&self) -> (n: usize)
        ensures
            n == self@.filtered_indices.len(),
    {
        self.filtered_indices.len()
    }

    /// How many directories were found.
    pub fn found_count(&self) -> (n: usize)
        ensures
            n == self@.results.len(),
    {
        self.results.len()
    }

    /// The largest size among the results, 1 when there are none.
    pub fn max_result_size(&self) -> (m: u64)
        ensures
            m == max_size(self@.results),
    {
        let n = self.results.len();
        if n == 0 {
            return 1;
        }
        let mut m = self.results[0].size_bytes;
        let mut i: usize = 1;
        assert(self@.results.take(1).drop_last() =~= Seq::<FolderResult>::empty());
        assert(max_size(self@.results.take(1)) == self@.results[0].size_bytes);
        while i < n
            invariant
                n == self@.results.len(),
                1 <= i <= n,
                m == max_size(self@.results.take(i as int)),
            decreases n - i,
        {
            assert(self@.results.take(i + 1).drop_last() =~= self@.results.take(i as int));
            let s = self.results[i].size_bytes;
            if s > m {
                m = s;
            }
            i = i + 1;
        }
        assert(self@.results.take(n as int) =~= self@.results);
        m
    }

    /// How many deletions can still be undone.
    pub fn undo_count(&self) -> (n: usize)
        ensures
            n == self@.undo_stack.len(),
    {
        self.undo_stack.len()
    }

    /// Remembers a directory moved to the trash at `now_ms`; it can be brought back
    /// for the undo window.
    pub fn push_undo_at(&mut self, original_path: String, trash_path: String, size_bytes: u64, now_ms: u64)
        requires
            old(self)@.wf(),
        ensures
            final(self)@ == (AppView {
                undo_stack: old(self)@.undo_stack.push(UndoEntry {
                    original_path,
                    trash_path,
                    size_bytes,
                    expires_ms: later_by(now_ms, UNDO_WINDOW_MS),
                }),
                ..old(self)@
            }),
            final(self)@.wf(),
    {
        let expires_ms = now_ms.saturating_add(UNDO_WINDOW_MS);
        let ghost e = UndoEntry { original_path, trash_path, size_bytes, expires_ms };
        self.undo_stack.push(UndoEntry { original_path, trash_path, size_bytes, expires_ms });
        assert(self@ =~= AppView { undo_stack: old(self)@.undo_stack.push(e), ..old(self)@ });
    }

    /// Remembers a directory moved to the trash now.
    pub fn push_undo(&mut self, original_path: String, trash_path: String, size_bytes: u64)
        requires
            old(self)@.wf(),
        ensures
            exists|now: u64| final(self)@ == (AppView {
                undo_stack: old(self)@.undo_stack.push(UndoEntry {
                    original_path,
                    trash_path,
                    size_bytes,
                    expires_ms: #[trigger] later_by(now, UNDO_WINDOW_MS),
                }),
                ..old(self)@
            }),
            final(self)@.wf(),
    {
        let now = crate::clock::now_millis();
        self.push_undo_at(original_path, trash_path, size_bytes, now);
    }

    /// Makes the freed-space counter flash from `now_ms` on.
    pub fn flash_freed_at(&mut self, now_ms: u64)
        requires
            old(self)@.wf(),
        ensures
            final(self)@ == (AppView { freed_flash_until: later_by(now_ms, FLASH_MS), ..old(self)@ }),
            final(self)@.wf(),
    {
        self.freed_flash_until = now_ms.saturating_add(FLASH_MS);
        assert(self@ =~= AppView { freed_flash_until: later_by(now_ms, FLASH_MS), ..old(self)@ });
    }

    /// Makes the freed-space counter flash from now on.
    pub fn flash_freed(&mut self)
        requires
            old(self)@.wf(),
        ensures
            exists|now: u64| final(self)@ == (AppView { freed_flash_until: #[trigger] later_by(now, FLASH_MS), ..old(self)@ }),
            final(self)@.wf(),
    {
        let now = crate::clock::now_millis();
        self.flash_freed_at(now);
    }

    /// Whether the freed-space counter flashes at `now_ms`.
    pub fn is_freed_flashing_at(&self, now_ms: u64) -> (r: bool)
        ensures
            r == flashing_at(self@.freed_flash_until, now_ms),
    {
        now_ms < self.freed_flash_until
    }

    /// Whether the freed-space counter flashes now.
    pub fn is_freed_flashing(&self) -> (r: bool)
        ensures
            exists|now: u64| r == #[trigger] flashing_at(self@.freed_flash_until, now),
    {
        let now = crate::clock::now_millis();
        self.is_freed_flashing_at(now)
    }

    /// Drops the undo entries that expired by `now_ms`; the answer is their trash
    /// paths, to be removed for good.
    pub fn cleanup_expired_undo_at(&mut self, now_ms: u64) -> (expired: Vec<String>)
        requires
            old(self)@.wf(),
        ensures
            final(self)@ == (AppView { undo_stack: undo_split(old(self)@.undo_stack, now_ms).0, ..old(self)@ }),
            expired@ == undo_split(old(self)@.undo_stack, now_ms).1,
            final(self)@.wf(),
    {
        let mut src: Vec<UndoEntry> = Vec::new();
        std::mem::swap(&mut src, &mut self.undo_stack);
        let ghost u0 = src@;
        let ghost v0 = self@;
        let mut expired: Vec<String> = Vec::new();
        let ghost mut k: int = 0;
        assert(u0.skip(0) =~= u0);
        while src.len() > 0
            invariant
                self@ == (AppView { undo_stack: self@.undo_stack, ..v0 }),
                0 <= k <= u0.len(),
                src@ == u0.skip(k),
                self@.undo_stack == undo_split(u0.take(k), now_ms).0,
                expired@ == undo_split(u0.take(k), now_ms).1,
            decreases src@.len(),
        {
            let e = src.remove(0);
            proof {
                assert(u0.take(k + 1).drop_last() =~= u0.take(k));
                assert(u0.take(k + 1).last() == e);
                assert(u0.skip(k + 1) =~= u0.skip(k).drop_first());
            }
            if now_ms >= e.expires_ms {
                expired.push(e.trash_path);
            } else {
                self.undo_stack.push(e);
            }
            proof {
                k = k + 1;
            }
        }
        assert(u0.take(k) =~= u0);
        assert(self@ =~= AppView { undo_stack: undo_split(old(self)@.undo_stack, now_ms).0, ..old(self)@ });
        expired
    }

    /// Drops the undo entries that have expired by now.
    pub fn cleanup_expired_undo(&mut self) -> (expired: Vec<String>)
        requires
            old(self)@.wf(),
        ensures
            exists|now: u64| {
                &&& final(self)@ == (AppView { undo_stack: (#[trigger] undo_split(old(self)@.undo_stack, now)).0, ..old(self)@ })
                &&& expired@ == undo_split(old(self)@.undo_stack, now).1
            },
            final(self)@.wf(),
    {
        let now = crate::clock::now_millis();
        self.cleanup_expired_undo_at(now)
    }
}


/// A key as the list reads it.
#[derive(Debug, Clone, Copy, PartialEq, Eq, Structural)]
pub enum Key {
    Char(char),
    Esc,
    Enter,
    Backspace,
    Up,
    Down,
    PageUp,
    PageDown,
    Home,
    End,
    Delete,
    Other,
}

/// A key press: the key, and whether Control was held.
#[derive(Debug, Clone, Copy, PartialEq, Eq, Structural)]
pub struct KeyPress {
    pub key: Key,
    pub ctrl: bool,
}

/// What the caller is to do after a key: delete these directories (path and known
/// size), and open this directory in the file manager.
pub struct KeyOutcome {
    pub deletes: Vec<(String, u64)>,
    pub open_dir: Option<String>,
}

/// The key reaches the list itself: no search, help, error popup, Ctrl-C or
/// pending delete takes it first.
pub open spec fn reaches_list(v: AppView, k: KeyPress) -> bool {
    &&& v.mode != AppMode::Search
    &&& v.mode != AppMode::Help
    &&& !v.show_errors
    &&& !(k.ctrl && k.key == Key::Char('c'))
    &&& v.pending_delete.is_none()
}

/// The rows that a key moves the cursor by, when it moves it.
pub open spec fn key_delta(v: AppView, k: Key) -> Option<int> {
    match k {
        Key::Up | Key::Char('k') => Some(-1),
        Key::Down | Key::Char('j') => Some(1),
        Key::PageUp => Some(-((v.list_height as i32) as int)),
        Key::PageDown => Some((v.list_height as i32) as int),
        _ => None,
    }
}

/// A key can be handled without overflow: moving computes in `i32`.
pub open spec fn key_fits(v: AppView, k: KeyPress) -> bool {
    reaches_list(v, k) ==> match key_delta(v, k.key) {
        Some(d) => i32::MIN <= d <= i32::MAX && move_fits(v, d as i32),
        None => true,
    }
}

/// The directory that `o` opens: the parent of the result under the cursor.
pub open spec fn open_target(v: AppView) -> Option<Seq<char>> {
    if v.selected_index < v.filtered_indices.len() {
        crate::paths::parent_of(v.results[v.cursor_result()].path@)
    } else {
        None
    }
}

/// What a key does: the new state, the directories to delete, the directory to
/// open.
pub open spec fn key_effect(v: AppView, k: KeyPress) -> (AppView, Seq<(String, u64)>, Option<Seq<char>>) {
    let none: Seq<(String, u64)> = seq![];
    if v.mode == AppMode::Search {
        let w = match k.key {
            Key::Esc => v.after_escape(),
            Key::Enter => AppView { mode: AppMode::Normal, ..v },
            Key::Backspace => v.after_pop_char(),
            Key::Char(c) => v.after_push_char(c),
            _ => v,
        };
        (w, none, None)
    } else if v.mode == AppMode::Help {
        let w = match k.key {
            Key::Esc | Key::Char('?') | Key::Char('q') => AppView { mode: AppMode::Normal, ..v },
            _ => v,
        };
        (w, none, None)
    } else if v.show_errors {
        let w = if k.key == Key::Char('e') || k.key == Key::Esc {
            AppView { show_errors: false, ..v }
        } else {
            v
        };
        (w, none, None)
    } else if k.ctrl && k.key == Key::Char('c') {
        (AppView { should_quit: true, ..v }, none, None)
    } else if v.pending_delete.is_some() {
        match k.key {
            Key::Char('y') | Key::Char(' ') | Key::Delete => (
                v.after_confirm(),
                match v.confirm_output() {
                    Some(x) => seq![x],
                    None => none,
                },
                None,
            ),
            _ => (AppView { pending_delete: None, ..v }, none, None),
        }
    } else {
        match k.key {
            Key::Char('q') => (AppView { should_quit: true, ..v }, none, None),
            Key::Up | Key::Char('k') | Key::Down | Key::Char('j') | Key::PageUp | Key::PageDown => (
                v.after_move(key_delta(v, k.key).unwrap() as i32),
                none,
                None,
            ),
            Key::Home => (v.after_home(), none, None),
            Key::End => (v.after_end(), none, None),
            Key::Char(' ') | Key::Delete => (v.after_space(), none, None),
            Key::Enter => (v.after_enter(), v.enter_output(), None),
            Key::Char('t') | Key::Char('T') => (v.after_toggle_multi(), none, None),
            Key::Char('a') | Key::Char('A') => (v.after_select_all(), none, None),
            Key::Char('v') | Key::Char('V') => (v.after_toggle_range(), none, None),
            Key::Char('/') => (v.after_enter_search(), none, None),
            Key::Char('s') => (v.after_cycle_sort(), none, None),
            Key::Char('e') => (AppView { show_errors: !v.show_errors, ..v }, none, None),
            Key::Char('o') => (v, none, open_target(v)),
            Key::Char('?') => (AppView { mode: AppMode::Help, ..v }, none, None),
            Key::Esc => (v.after_escape(), none, None),
            _ => (v, none, None),
        }
    }
}

/// A mouse action as the list reads it.
#[derive(Debug, Clone, Copy, PartialEq, Eq, Structural)]
pub enum MouseAction {
    ScrollUp,
    ScrollDown,
    LeftClick { row: u16 },
    Other,
}

/// The rows above the list: the header, the stats line and the progress line.
pub const HEADER_ROWS: u16 = 5;

pub open spec fn mouse_fits(v: AppView, m: MouseAction) -> bool {
    match m {
        MouseAction::ScrollUp => move_fits(v, -3i32),
        MouseAction::ScrollDown => move_fits(v, 3i32),
        MouseAction::LeftClick { row } => row >= HEADER_ROWS ==> (row - HEADER_ROWS) + v.scroll_offset <= usize::MAX,
        MouseAction::Other => true,
    }
}

/// What a mouse action does: scrolling moves the cursor by three rows, a click on a
/// row of the list selects it.
pub open spec fn mouse_effect(v: AppView, m: MouseAction) -> AppView {
    match m {
        MouseAction::ScrollUp => v.after_move(-3i32),
        MouseAction::ScrollDown => v.after_move(3i32),
        MouseAction::LeftClick { row } => if row >= HEADER_ROWS && (row - HEADER_ROWS) + v.scroll_offset
            < v.filtered_indices.len() {
            AppView { selected_index: ((row - HEADER_ROWS) + v.scroll_offset) as usize, ..v }
        } else {
            v
        },
        MouseAction::Other => v,
    }
}

impl App {
    fn open_directory(&self) -> (r: Option<String>)
        requires
            self@.wf(),
        ensures
            match r {
                Some(s) => open_target(self@) == Some(s@),
                None => open_target(self@).is_none(),
            },
    {
        match self.get_selected_result() {
            Some(r) => crate::paths::parent_path(r.path.as_str()),
            None => None,
        }
    }

    /// Handles a key (see `key_effect`).
    #[verifier::rlimit(60)]
    pub fn handle_key(&mut self, k: KeyPress) -> (out: KeyOutcome)
        requires
            old(self)@.wf(),
            key_fits(old(self)@, k),
        ensures
            final(self)@ == key_effect(old(self)@, k).0,
            out.deletes@ == key_effect(old(self)@, k).1,
            match out.open_dir {
                Some(s) => key_effect(old(self)@, k).2 == Some(s@),
                None => key_effect(old(self)@, k).2.is_none(),
            },
            final(self)@.wf(),
    {
        let none = KeyOutcome { deletes: Vec::new(), open_dir: None };
        if self.mode == AppMode::Search {
            match k.key {
                Key::Esc => self.handle_escape(),
                Key::Enter => {
                    self.mode = AppMode::Normal;
                },
                Key::Backspace => self.search_pop_char(),
                Key::Char(c) => self.search_push_char(c),
                _ => {},
            }
            assert(self@ =~= key_effect(old(self)@, k).0);
            return none;
        }
        if self.mode == AppMode::Help {
            match k.key {
                Key::Esc | Key::Char('?') | Key::Char('q') => {
                    self.mode = AppMode::Normal;
                },
                _ => {},
            }
            assert(self@ =~= key_effect(old(self)@, k).0);
            return none;
        }
        if self.show_errors {
            if k.key == Key::Char('e') || k.key == Key::Esc {
                self.show_errors = false;
            }
            assert(self@ =~= key_effect(old(self)@, k).0);
            return none;
        }
        if k.ctrl && k.key == Key::Char('c') {
            self.should_quit = true;
            assert(self@ =~= key_effect(old(self)@, k).0);
            return none;
        }
        if self.pending_delete.is_some() {
            match k.key {
                Key::Char('y') | Key::Char(' ') | Key::Delete => {
                    let mut deletes: Vec<(String, u64)> = Vec::new();
                    if let Some(item) = self.confirm_pending_delete() {
                        deletes.push(item);
                    }
                    assert(deletes@ =~= key_effect(old(self)@, k).1);
                    return KeyOutcome { deletes, open_dir: None };
                },
                _ => {
                    self.pending_delete = None;
                    assert(self@ =~= key_effect(old(self)@, k).0);
                    return none;
                },
            }
        }
        match k.key {
            Key::Char('q') => {
                self.should_quit = true;
            },
            Key::Up | Key::Char('k') => self.move_selection(-1),
            Key::Down | Key::Char('j') => self.move_selection(1),
            Key::PageUp => {
                let h = self.list_height as i32;
                self.move_selection(-h);
            },
            Key::PageDown => {
                let h = self.list_height as i32;
                self.move_selection(h);
            },
            Key::Home => self.go_home(),
            Key::End => self.go_end(),
            Key::Char(' ') | Key::Delete => {
                let _ = self.handle_space_or_delete();
            },
            Key::Enter => {
                let deletes = self.handle_enter();
                return KeyOutcome { deletes, open_dir: None };
            },
            Key::Char('t') | Key::Char('T') => self.toggle_multi_select(),
            Key::Char('a') | Key::Char('A') => self.select_all(),
            Key::Char('v') | Key::Char('V') => self.toggle_range_select(),
            Key::Char('/') => self.enter_search(),
            Key::Char('s') => self.cycle_sort(),
            Key::Char('e') => {
                self.show_errors = !self.show_errors;
            },
            Key::Char('o') => {
                let open_dir = self.open_directory();
                return KeyOutcome { deletes: Vec::new(), open_dir };
            },
            Key::Char('?') => {
                self.mode = AppMode::Help;
            },
            Key::Esc => self.handle_escape(),
            _ => {},
        }
        assert(self@ =~= key_effect(old(self)@, k).0);
        none
    }

    /// Handles a mouse action (see `mouse_effect`).
    pub fn handle_mouse(&mut self, m: MouseAction)
        requires
            old(self)@.wf(),
            mouse_fits(old(self)@, m),
        ensures
            final(self)@ == mouse_effect(old(self)@, m),
            final(self)@.wf(),
    {
        match m {
            MouseAction::ScrollUp => self.move_selection(-3),
            MouseAction::ScrollDown => self.move_selection(3),
            MouseAction::LeftClick { row } => {
                if row >= HEADER_ROWS {
                    let clicked = (row - HEADER_ROWS) as usize + self.scroll_offset;
                    if clicked < self.filtered_indices.len() {
                        self.selected_index = clicked;
                    }
                }
                assert(self@ =~= mouse_effect(old(self)@, m));
            },
            MouseAction::Other => {},
        }
    }
}


/// Something that happened outside the list: the scanner, the sizer, the risk
/// analysis or a deletion reporting back.
pub enum ListEvent {
    ScanFound(String),
    ScanProgress(u64),
    ScanError(String),
    ScanComplete(u64),
    SizeCalculated { path: String, size: u64, newest_ms: u64 },
    RiskAnalyzed { path: String, is_dead: bool, risk_level: RiskLevel },
    DeleteFinished { path: String, freed_bytes: u64, error: Option<String> },
    PermissionDenied,
}

/// Work that the caller is to start for the list: size a directory, or analyse the
/// risk of one whose directory name is `target`.
pub enum ListJob {
    Size(String),
    Risk { path: String, target: String },
}

/// The target name that the risk analysis is given for a path: its file name, or
/// `node_modules` when it has none.
pub open spec fn risk_target(p: Seq<char>) -> Seq<char> {
    match crate::paths::file_name_of(p) {
        Some(n) => n,
        None => "node_modules"@,
    }
}

/// A job as plain values: `(is_size, path, target)`.
pub open spec fn job_view(j: ListJob) -> (bool, Seq<char>, Seq<char>) {
    match j {
        ListJob::Size(p) => (true, p@, seq![]),
        ListJob::Risk { path, target } => (false, path@, target@),
    }
}

/// Whether any result is still being deleted.
pub open spec fn any_deleting(rs: Seq<FolderResult>) -> bool {
    exists|i: int| 0 <= i < rs.len() && (#[trigger] rs[i]).status == FolderStatus::Deleting
}

/// An event can be recorded without overflow.
pub open spec fn event_fits(v: AppView, e: ListEvent) -> bool {
    match e {
        ListEvent::SizeCalculated { path, size, newest_ms } => lookup(v.results, path@) matches Some(i)
            ==> v.resized_total(i, size) <= u64::MAX,
        ListEvent::DeleteFinished { path, freed_bytes, error } => error.is_none() ==> (
            lookup(v.results, path@) is Some ==> v.freed_space + freed_bytes <= u64::MAX),
        ListEvent::PermissionDenied => v.permission_denied_count < u64::MAX,
        _ => true,
    }
}

/// What an event does to the list.
pub open spec fn event_effect(v: AppView, e: ListEvent) -> AppView {
    match e {
        ListEvent::ScanFound(p) => v.after_add(p),
        ListEvent::ScanProgress(n) => AppView { dirs_scanned: n, ..v },
        ListEvent::ScanError(m) => AppView { errors: v.errors.push(m), ..v },
        ListEvent::ScanComplete(d) => AppView { scan_complete: true, scan_duration_ms: d, ..v },
        ListEvent::SizeCalculated { path, size, newest_ms } => v.after_update_size(path@, size, newest_ms),
        ListEvent::RiskAnalyzed { path, is_dead, risk_level } => v.after_update_risk(path@, is_dead, risk_level),
        ListEvent::DeleteFinished { path, freed_bytes, error } => {
            let w = match error {
                Some(m) => v.after_mark_error(path@, m),
                None => v.after_mark_deleted(path@, freed_bytes),
            };
            if !any_deleting(w.results) && w.mode == AppMode::Deleting {
                AppView { mode: AppMode::Normal, ..w }
            } else {
                w
            }
        },
        ListEvent::PermissionDenied => AppView { permission_denied_count: (v.permission_denied_count + 1) as u64, ..v },
    }
}

/// The jobs that an event starts: sizing for a found directory, and once the scan
/// is complete a risk analysis for every result, in order.
pub open spec fn event_jobs(v: AppView, e: ListEvent) -> Seq<(bool, Seq<char>, Seq<char>)> {
    match e {
        ListEvent::ScanFound(p) => seq![(true, p@, Seq::<char>::empty())],
        ListEvent::ScanComplete(d) => Seq::new(
            v.results.len(),
            |i: int| (false, v.results[i].path@, risk_target(v.results[i].path@)),
        ),
        _ => seq![],
    }
}

impl App {
    fn still_deleting(&self) -> (r: bool)
        ensures
            r == any_deleting(self@.results),
    {
        let mut i: usize = 0;
        while i < self.results.len()
            invariant
                i <= self@.results.len(),
                forall|j: int| 0 <= j < i ==> (#[trigger] self@.results[j]).status != FolderStatus::Deleting,
            decreases self.results.len() - i,
        {
            if self.results[i].status == FolderStatus::Deleting {
                return true;
            }
            i = i + 1;
        }
        false
    }

    /// A risk analysis job for every result, in order.
    fn risk_jobs(&self) -> (jobs: Vec<ListJob>)
        ensures
            jobs@.map_values(|j: ListJob| job_view(j)) == Seq::new(
                self@.results.len(),
                |i: int| (false, self@.results[i].path@, risk_target(self@.results[i].path@)),
            ),
    {
        let ghost want = Seq::new(
            self@.results.len(),
            |i: int| (false, self@.results[i].path@, risk_target(self@.results[i].path@)),
        );
        let mut jobs: Vec<ListJob> = Vec::new();
        let mut i: usize = 0;
        while i < self.results.len()
            invariant
                i <= self@.results.len(),
                want.len() == self@.results.len(),
                want == Seq::new(
                    self@.results.len(),
                    |i: int| (false, self@.results[i].path@, risk_target(self@.results[i].path@)),
                ),
                jobs@.map_values(|j: ListJob| job_view(j)) =~= want.take(i as int),
            decreases self.results.len() - i,
        {
            let path = self.results[i].path.clone();
            let target = match crate::paths::file_name(path.as_str()) {
                Some(n) => n,
                None => crate::text::string_of("node_modules"),
            };
            let ghost before = jobs@;
            jobs.push(ListJob::Risk { path, target });
            assert(jobs@ =~= before.push(ListJob::Risk { path, target }));
            assert(job_view(ListJob::Risk { path, target }) == want[i as int]);
            assert(jobs@.map_values(|j: ListJob| job_view(j)) =~= before.map_values(|j: ListJob| job_view(j)).push(want[i as int]));
            assert(want.take(i + 1) =~= want.take(i as int).push(want[i as int]));
            i = i + 1;
        }
        assert(want.take(i as int) =~= want);
        jobs
    }

    #[verifier::rlimit(100)]
    #[verifier::spinoff_prover]
    /// Records an event (see `event_effect`); the answer is the work to start (see
    /// `event_jobs`).
    pub fn handle_list_event(&mut self, e: ListEvent) -> (jobs: Vec<ListJob>)
        requires
            old(self)@.wf(),
            event_fits(old(self)@, e),
        ensures
            final(self)@ == event_effect(old(self)@, e),
            jobs@.map_values(|j: ListJob| job_view(j)) == event_jobs(old(self)@, e),
            final(self)@.wf(),
    {
        let ghost e0 = e;
        let mut jobs: Vec<ListJob> = Vec::new();
        match e {
            ListEvent::ScanFound(path) => {
                let p = path.clone();
                jobs.push(ListJob::Size(p));
                self.add_result(path);
            },
            ListEvent::ScanProgress(n) => {
                self.dirs_scanned = n;
                assert(self@ =~= event_effect(old(self)@, e0));
            },
            ListEvent::ScanError(m) => {
                self.errors.push(m);
                assert(self@ =~= event_effect(old(self)@, e0));
            },
            ListEvent::ScanComplete(d) => {
                jobs = self.risk_jobs();
                self.scan_complete = true;
                self.scan_duration_ms = d;
                assert(self@ =~= event_effect(old(self)@, e0));
            },
            ListEvent::SizeCalculated { path, size, newest_ms } => {
                self.update_size(path.as_str(), size, newest_ms);
            },
            ListEvent::RiskAnalyzed { path, is_dead, risk_level } => {
                self.update_risk(path.as_str(), is_dead, risk_level);
            },
            ListEvent::DeleteFinished { path, freed_bytes, error } => {
                match error {
                    Some(m) => self.mark_error(path.as_str(), m),
                    None => self.mark_deleted(path.as_str(), freed_bytes),
                }
                if !self.still_deleting() && self.mode == AppMode::Deleting {
                    self.mode = AppMode::Normal;
                }
                assert(self@ =~= event_effect(old(self)@, e0));
            },
            ListEvent::PermissionDenied => {
                self.permission_denied_count = self.permission_denied_count + 1;
                assert(self@ =~= event_effect(old(self)@, e0));
            },
        }
        assert(jobs@.map_values(|j: ListJob| job_view(j)) =~= event_jobs(old(self)@, e0));
        jobs
    }
}

/// A scanner error that says access was denied: it counts as a denied directory,
/// not as an error to show.
pub open spec fn denies_access(message: Seq<char>) -> bool {
    crate::text::contains_seq(message, "ermission denied"@) || crate::text::contains_seq(
        message,
        "ccess is denied"@,
    )
}

/// What a scanner event becomes for the list, and whether the scan is over.
pub open spec fn list_event_of(ev: crate::scanner::ScanEvent) -> (ListEvent, bool) {
    match ev {
        crate::scanner::ScanEvent::Found { path } => (ListEvent::ScanFound(path), false),
        crate::scanner::ScanEvent::Progress { dirs_scanned, .. } => (ListEvent::ScanProgress(dirs_scanned), false),
        crate::scanner::ScanEvent::Error { message } => if denies_access(message@) {
            (ListEvent::PermissionDenied, false)
        } else {
            (ListEvent::ScanError(message), false)
        },
        crate::scanner::ScanEvent::Complete { duration_ms, .. } => (ListEvent::ScanComplete(duration_ms), true),
    }
}

/// Turns a scanner event into an event of the list (see `list_event_of`).
pub fn list_event_from_scan(ev: crate::scanner::ScanEvent) -> (r: (ListEvent, bool))
    ensures
        r == list_event_of(ev),
{
    match ev {
        crate::scanner::ScanEvent::Found { path } => (ListEvent::ScanFound(path), false),
        crate::scanner::ScanEvent::Progress { dirs_scanned, .. } => (ListEvent::ScanProgress(dirs_scanned), false),
        crate::scanner::ScanEvent::Error { message } => {
            let m = crate::text::chars_of(message.as_str());
            let denied = crate::text::contains_chars(&m, &crate::text::chars_of("ermission denied"))
                || crate::text::contains_chars(&m, &crate::text::chars_of("ccess is denied"));
            if denied {
                (ListEvent::PermissionDenied, false)
            } else {
                (ListEvent::ScanError(message), false)
            }
        },
        crate::scanner::ScanEvent::Complete { duration_ms, .. } => (ListEvent::ScanComplete(duration_ms), true),
    }
}

impl App {
    /// Sets how many rows of the list fit on screen.
    pub fn set_list_height(&mut self, h: usize)
        requires
            old(self)@.wf(),
            old(self)@.scroll_offset + h <= usize::MAX,
        ensures
            final(self)@ == (AppView { list_height: h, ..old(self)@ }),
            final(self)@.wf(),
    {
        self.list_height = h;
        assert(self@ =~= (AppView { list_height: h, ..old(self)@ }));
    }

    /// Whether the cursor can move by `delta` rows without overflow (see `move_fits`).
    pub fn can_move(&self, delta: i32) -> (r: bool)
        ensures
            r == move_fits(self@, delta),
    {
        if self.filtered_indices.len() == 0 {
            return true;
        }
        let target = (self.selected_index as i32) as i64 + delta as i64;
        let count = self.filtered_indices.len() as i32;
        -2147483648i64 <= target && target <= 2147483647i64 && count >= 1
    }

    /// Whether a key can be handled without overflow (see `key_fits`).
    pub fn can_handle_key(&self, k: KeyPress) -> (r: bool)
        ensures
            r == key_fits(self@, k),
    {
        let reaches = self.mode != AppMode::Search && self.mode != AppMode::Help && !self.show_errors && !(k.ctrl
            && k.key == Key::Char('c')) && self.pending_delete.is_none();
        if !reaches {
            return true;
        }
        match k.key {
            Key::Up | Key::Char('k') => self.can_move(-1),
            Key::Down | Key::Char('j') => self.can_move(1),
            Key::PageUp => {
                let h = self.list_height as i32;
                if h == -2147483648i32 {
                    false
                } else {
                    self.can_move(-h)
                }
            },
            Key::PageDown => self.can_move(self.list_height as i32),
            _ => true,
        }
    }

    /// Whether a mouse action can be handled without overflow (see `mouse_fits`).
    pub fn can_handle_mouse(&self, m: MouseAction) -> (r: bool)
        ensures
            r == mouse_fits(self@, m),
    {
        match m {
            MouseAction::ScrollUp => self.can_move(-3),
            MouseAction::ScrollDown => self.can_move(3),
            MouseAction::LeftClick { row } => {
                if row >= HEADER_ROWS {
                    self.scroll_offset.checked_add((row - HEADER_ROWS) as usize).is_some()
                } else {
                    true
                }
            },
            MouseAction::Other => true,
        }
    }

    /// Whether an event can be recorded without overflow (see `event_fits`).
    pub fn can_handle_event(&self, e: &ListEvent) -> (r: bool)
        requires
            self@.wf(),
        ensures
            r == event_fits(self@, *e),
    {
        match e {
            ListEvent::SizeCalculated { path, size, .. } => match self.index_of(path.as_str()) {
                Some(i) => {
                    proof {
                        lemma_lookup_bounds(self@.results, path@);
                        crate::sorting::lemma_sum_ge_elem(self@.results, i as int, size_weight());
                    }
                    (self.total_size - self.results[i].size_bytes).checked_add(*size).is_some()
                },
                None => true,
            },
            ListEvent::DeleteFinished { path, freed_bytes, error } => {
                if error.is_some() {
                    true
                } else {
                    match self.index_of(path.as_str()) {
                        Some(_) => self.freed_space.checked_add(*freed_bytes).is_some(),
                        None => true,
                    }
                }
            },
            ListEvent::PermissionDenied => self.permission_denied_count < u64::MAX,
            _ => true,
        }
    }
}

} // verus!
