use vstd::prelude::*;

use crate::deleter::{freed_total, DeleteResult};
use crate::risk::{risk_name, RiskResult};
use crate::scanner::{ScanEvent, ScanOptions};
use crate::text::trimmed;

verus! {

/// A command that the front end sends, one JSON object per line.
pub enum IpcCommand {
    StartScan {
        root: String,
        targets: Vec<String>,
        exclude: Vec<String>,
        exclude_hidden: bool,
        max_depth: Option<usize>,
    },
    StopScan,
    GetSize { path: String },
    Delete { paths: Vec<String>, dry_run: bool },
    DeleteAll { dry_run: bool },
    AnalyzeRisk { path: String, target: String },
}

/// An event that goes back to the front end, one JSON object per line.
pub enum IpcEvent {
    Ready,
    ScanFound { path: String },
    ScanSize { path: String, size_bytes: u64, newest_ms: u64 },
    ScanRisk { path: String, is_dead: bool, risk: String },
    ScanProgress { scanned: u64, found: u64 },
    ScanComplete { total_found: u64, duration_ms: u64 },
    DeleteProgress { path: String, status: String, freed_bytes: u64 },
    DeleteComplete { total_freed: u64 },
    Error { message: String },
}

/// What the server keeps between commands: the directories that the last scan
/// found, and whether that scan was asked to stop.
pub struct IpcSession {
    pub found_paths: Vec<String>,
    pub cancelled: bool,
}

/// The text of a command line: the line trimmed, or nothing for a blank line,
/// which the server skips.
pub open spec fn command_text_of(line: Seq<char>) -> Option<Seq<char>> {
    if trimmed(line).len() == 0 {
        None
    } else {
        Some(trimmed(line))
    }
}

/// The text of a command line (see `command_text_of`).
pub fn command_text(line: &str) -> (r: Option<String>)
    ensures
        match r {
            Some(s) => command_text_of(line@) == Some(s@),
            None => command_text_of(line@) is None,
        },
{
    let t = crate::text::trim_chars(&crate::text::chars_of(line));
    if t.len() == 0 {
        None
    } else {
        let s = crate::text::string_from_chars(&t, 0, t.len());
        assert(t@.subrange(0, t@.len() as int) =~= t@);
        Some(s)
    }
}

/// The answer to a line that is no command: an error that says why.
pub fn invalid_command_event(reason: &str) -> (e: IpcEvent)
    ensures
        e matches IpcEvent::Error { message } && message@ == "Invalid command: "@ + reason@,
{
    let mut message = crate::text::string_of("Invalid command: ");
    crate::text::append_str(&mut message, reason);
    IpcEvent::Error { message }
}

/// The event that reports the size of a directory.
pub fn size_event(path: String, size_bytes: u64, newest_ms: u64) -> (e: IpcEvent)
    ensures
        e == (IpcEvent::ScanSize { path, size_bytes, newest_ms }),
{
    IpcEvent::ScanSize { path, size_bytes, newest_ms }
}

/// The event that reports the risk of a directory, the level by name in lower case.
pub fn risk_event(path: String, risk: RiskResult) -> (e: IpcEvent)
    ensures
        e matches IpcEvent::ScanRisk { path: p, is_dead, risk: name } && p == path && is_dead
            == risk.is_dead && name@ == risk_name(risk.risk_level),
{
    IpcEvent::ScanRisk {
        path,
        is_dead: risk.is_dead,
        risk: crate::text::string_of(risk.risk_level.as_str()),
    }
}

/// The event sent as the deletion of a directory starts.
pub fn deleting_event(path: String) -> (e: IpcEvent)
    ensures
        e matches IpcEvent::DeleteProgress { path: p, status, freed_bytes } && p == path && status@
            == "deleting"@ && freed_bytes == 0,
{
    IpcEvent::DeleteProgress { path, status: crate::text::string_of("deleting"), freed_bytes: 0 }
}

/// What the event for a finished deletion says: `deleted` and the bytes freed, or
/// `error: ` and the reason, with no bytes.
pub open spec fn delete_event_of(r: DeleteResult) -> (Seq<char>, Seq<char>, u64) {
    match r {
        DeleteResult::Success { path, freed_bytes } => (path@, "deleted"@, freed_bytes),
        DeleteResult::Error { path, message, .. } => (path@, "error: "@ + message@, 0u64),
    }
}

/// The path, status and bytes of a progress event of a deletion.
pub open spec fn progress_view(e: IpcEvent) -> Option<(Seq<char>, Seq<char>, u64)> {
    match e {
        IpcEvent::DeleteProgress { path, status, freed_bytes } => Some((path@, status@, freed_bytes)),
        _ => None,
    }
}

/// The event for a finished deletion (see `delete_event_of`).
pub fn delete_event(r: &DeleteResult) -> (e: IpcEvent)
    ensures
        progress_view(e) == Some(delete_event_of(*r)),
{
    match r {
        DeleteResult::Success { path, freed_bytes } => IpcEvent::DeleteProgress {
            path: crate::text::string_of(path.as_str()),
            status: crate::text::string_of("deleted"),
            freed_bytes: *freed_bytes,
        },
        DeleteResult::Error { path, message, .. } => {
            let mut status = crate::text::string_of("error: ");
            crate::text::append_str(&mut status, message.as_str());
            IpcEvent::DeleteProgress {
                path: crate::text::string_of(path.as_str()),
                status,
                freed_bytes: 0,
            }
        },
    }
}

/// The events for a finished batch of deletions: one per result, in order, then
/// the bytes that the successful ones freed.
pub fn delete_events(results: &Vec<DeleteResult>) -> (es: Vec<IpcEvent>)
    requires
        freed_total(results@) <= u64::MAX,
    ensures
        es@.len() == results@.len() + 1,
        forall|i: int|
            0 <= i < results@.len() ==> progress_view(#[trigger] es@[i]) == Some(delete_event_of(results@[i])),
        es@[results@.len() as int] == (IpcEvent::DeleteComplete {
            total_freed: freed_total(results@) as u64,
        }),
{
    let mut es: Vec<IpcEvent> = Vec::new();
    let mut i: usize = 0;
    while i < results.len()
        invariant
            i <= results@.len(),
            es@.len() == i,
            forall|j: int|
                0 <= j < i ==> progress_view(#[trigger] es@[j]) == Some(delete_event_of(results@[j])),
        decreases results.len() - i,
    {
        es.push(delete_event(&results[i]));
        i = i + 1;
    }
    let total = crate::deleter::total_freed(results);
    es.push(IpcEvent::DeleteComplete { total_freed: total });
    es
}

/// What forwarding a scanner event does: the event the front end gets, whether the
/// scan is over, and the directory whose size to measure, if one was found.
pub open spec fn forwarded(ev: ScanEvent) -> (IpcEvent, bool, Option<Seq<char>>) {
    match ev {
        ScanEvent::Found { path } => (IpcEvent::ScanFound { path }, false, Some(path@)),
        ScanEvent::Progress { dirs_scanned, dirs_found } => (
            IpcEvent::ScanProgress { scanned: dirs_scanned, found: dirs_found },
            false,
            None,
        ),
        ScanEvent::Error { message } => (IpcEvent::Error { message }, false, None),
        ScanEvent::Complete { total_found, duration_ms } => (
            IpcEvent::ScanComplete { total_found, duration_ms },
            true,
            None,
        ),
    }
}

/// The texts of a sequence of strings.
pub open spec fn texts(s: Seq<String>) -> Seq<Seq<char>> {
    s.map_values(|x: String| x@)
}

impl IpcSession {
    /// A session before any scan.
    pub fn new() -> (s: IpcSession)
        ensures
            s.found_paths@.len() == 0,
            !s.cancelled,
    {
        IpcSession { found_paths: Vec::new(), cancelled: false }
    }

    /// Starts a scan: the stop flag is cleared, the directories found before are
    /// forgotten, and the options are those of the command.
    pub fn start_scan(
        &mut self,
        root: String,
        targets: Vec<String>,
        exclude: Vec<String>,
        exclude_hidden: bool,
        max_depth: Option<usize>,
    ) -> (opts: ScanOptions)
        ensures
            final(self).found_paths@.len() == 0,
            !final(self).cancelled,
            opts == (ScanOptions { root, targets, exclude, exclude_hidden, max_depth }),
    {
        self.cancelled = false;
        self.found_paths = Vec::new();
        ScanOptions { root, targets, exclude, exclude_hidden, max_depth }
    }

    /// Asks the running scan to stop.
    pub fn stop_scan(&mut self)
        ensures
            final(self).cancelled,
            final(self).found_paths@ == old(self).found_paths@,
    {
        self.cancelled = true;
    }

    /// Forwards a scanner event (see `forwarded`); a found directory is remembered
    /// for a later delete-all.
    pub fn forward_scan_event(&mut self, ev: ScanEvent) -> (r: (IpcEvent, bool, Option<String>))
        ensures
            r.0 == forwarded(ev).0,
            r.1 == forwarded(ev).1,
            match r.2 {
                Some(p) => forwarded(ev).2 == Some(p@),
                None => forwarded(ev).2 is None,
            },
            final(self).cancelled == old(self).cancelled,
            ev matches ScanEvent::Found { path } ==> texts(final(self).found_paths@) == texts(
                old(self).found_paths@,
            ).push(path@),
            !(ev is Found) ==> final(self).found_paths@ == old(self).found_paths@,
    {
        match ev {
            ScanEvent::Found { path } => {
                let job = crate::text::string_of(path.as_str());
                let remembered = crate::text::string_of(path.as_str());
                let ghost before = self.found_paths@;
                self.found_paths.push(remembered);
                proof {
                    assert(texts(self.found_paths@) =~= texts(before).push(path@));
                }
                (IpcEvent::ScanFound { path }, false, Some(job))
            },
            ScanEvent::Progress { dirs_scanned, dirs_found } => (
                IpcEvent::ScanProgress { scanned: dirs_scanned, found: dirs_found },
                false,
                None,
            ),
            ScanEvent::Error { message } => (IpcEvent::Error { message }, false, None),
            ScanEvent::Complete { total_found, duration_ms } => (
                IpcEvent::ScanComplete { total_found, duration_ms },
                true,
                None,
            ),
        }
    }

    /// The directories that a delete-all deletes: those the last scan found, in
    /// the order found.
    pub fn delete_all_paths(&self) -> (paths: Vec<String>)
        ensures
            texts(paths@) == texts(self.found_paths@),
    {
        let mut paths: Vec<String> = Vec::new();
        let mut i: usize = 0;
        while i < self.found_paths.len()
            invariant
                i <= self.found_paths@.len(),
                paths@.len() == i,
                forall|j: int| 0 <= j < i ==> (#[trigger] paths@[j])@ == self.found_paths@[j]@,
            decreases self.found_paths.len() - i,
        {
            paths.push(crate::text::string_of(self.found_paths[i].as_str()));
            i = i + 1;
        }
        assert(texts(paths@) =~= texts(self.found_paths@));
        paths
    }
}

} // verus!
