use vstd::prelude::*;

use crate::risk::RiskLevel;
use crate::tui::app::{AppMode, FolderStatus};
use vstd::string::StringSliceAdditionalSpecFns;

verus! {

broadcast use {vstd::utf8::encode_utf8_decode_utf8, vstd::utf8::encode_utf8_valid_utf8};

/// The frames of the spinner shown beside a directory being deleted.
pub open spec fn spinner_frames() -> Seq<char> {
    seq![
        '\u{280b}',
        '\u{2819}',
        '\u{2839}',
        '\u{2838}',
        '\u{283c}',
        '\u{2834}',
        '\u{2826}',
        '\u{2827}',
        '\u{2807}',
        '\u{280f}',
    ]
}

/// The spinner frame at a time in milliseconds: a new frame every 80 ms.
pub fn spinner_char_at(ms: u64) -> (c: char)
    ensures
        c == spinner_frames()[((ms / 80) % 10) as int],
{
    let frames: [char; 10] = [
        '\u{280b}',
        '\u{2819}',
        '\u{2839}',
        '\u{2838}',
        '\u{283c}',
        '\u{2834}',
        '\u{2826}',
        '\u{2827}',
        '\u{2807}',
        '\u{280f}',
    ];
    let i = ((ms / 80) % 10) as usize;
    assert(frames@ =~= spinner_frames());
    frames[i]
}

/// The spinner frame now, by the clock.
pub fn spinner_char() -> (c: char)
    ensures
        exists|ms: u64| c == #[trigger] spinner_frames()[((ms / 80) % 10) as int],
{
    spinner_char_at(crate::clock::now_millis())
}

/// How a path is shaded by the age of its newest file.
#[derive(Debug, Clone, Copy, PartialEq, Eq, Structural)]
pub enum AgeTone {
    Unknown,
    Old,
    Aging,
    Fresh,
}

pub const DAY_MS: u64 = 86_400_000;

/// Unknown age when no time is known; old past a year, aging past half a year,
/// fresh otherwise (whole days, a time in the future counting as none).
pub open spec fn age_tone_of(newest_ms: u64, now_ms: u64) -> AgeTone {
    if newest_ms == 0 {
        AgeTone::Unknown
    } else {
        let days = (if now_ms >= newest_ms { now_ms - newest_ms } else { 0 }) / (DAY_MS as int);
        if days > 365 {
            AgeTone::Old
        } else if days > 180 {
            AgeTone::Aging
        } else {
            AgeTone::Fresh
        }
    }
}

/// How a path is shaded by the age of its newest file (see `age_tone_of`).
pub fn age_tone_at(newest_ms: u64, now_ms: u64) -> (t: AgeTone)
    ensures
        t == age_tone_of(newest_ms, now_ms),
{
    if newest_ms == 0 {
        return AgeTone::Unknown;
    }
    let days = now_ms.saturating_sub(newest_ms) / DAY_MS;
    if days > 365 {
        AgeTone::Old
    } else if days > 180 {
        AgeTone::Aging
    } else {
        AgeTone::Fresh
    }
}

/// How a path is shaded now, by the clock (see `age_tone_of`).
pub fn age_tone(newest_ms: u64) -> (t: AgeTone)
    ensures
        exists|now: u64| t == #[trigger] age_tone_of(newest_ms, now),
{
    age_tone_at(newest_ms, crate::clock::now_millis())
}

/// What stands before a path in the list: a check box in the selection modes, an
/// arrow at the cursor, blank otherwise.
#[derive(Debug, Clone, Copy, PartialEq, Eq, Structural)]
pub enum RowPrefix {
    Checked,
    Unchecked,
    Cursor,
    Blank,
}

pub open spec fn selecting(mode: AppMode) -> bool {
    mode == AppMode::MultiSelect || mode == AppMode::RangeSelect
}

pub fn row_prefix(mode: AppMode, is_checked: bool, is_selected: bool) -> (p: RowPrefix)
    ensures
        selecting(mode) ==> p == (if is_checked { RowPrefix::Checked } else { RowPrefix::Unchecked }),
        !selecting(mode) ==> p == (if is_selected { RowPrefix::Cursor } else { RowPrefix::Blank }),
{
    match mode {
        AppMode::MultiSelect | AppMode::RangeSelect => {
            if is_checked {
                RowPrefix::Checked
            } else {
                RowPrefix::Unchecked
            }
        },
        _ => {
            if is_selected {
                RowPrefix::Cursor
            } else {
                RowPrefix::Blank
            }
        },
    }
}

/// The columns that the prefix takes: six for a check box, four otherwise.
pub fn prefix_width(mode: AppMode) -> (w: usize)
    ensures
        w == (if selecting(mode) { 6usize } else { 4usize }),
{
    match mode {
        AppMode::MultiSelect | AppMode::RangeSelect => 6,
        _ => 4,
    }
}

/// The note after a path: the question of a pending delete first, else the
/// status of the directory.
#[derive(Debug, Clone, Copy, PartialEq, Eq, Structural)]
pub enum StatusMark {
    PendingDelete,
    Deleted,
    Deleting,
    Failed,
    Nothing,
}

pub open spec fn status_mark_of(is_pending: bool, status: FolderStatus) -> StatusMark {
    if is_pending {
        StatusMark::PendingDelete
    } else {
        match status {
            FolderStatus::Deleted => StatusMark::Deleted,
            FolderStatus::Deleting => StatusMark::Deleting,
            FolderStatus::Error => StatusMark::Failed,
            FolderStatus::Found => StatusMark::Nothing,
        }
    }
}

/// The columns that each note is reckoned to take.
pub open spec fn status_width_of(m: StatusMark) -> usize {
    match m {
        StatusMark::PendingDelete => 18,
        StatusMark::Deleted => 10,
        StatusMark::Deleting => 14,
        StatusMark::Failed => 15,
        StatusMark::Nothing => 0,
    }
}

pub fn status_mark(is_pending: bool, status: FolderStatus) -> (r: (StatusMark, usize))
    ensures
        r.0 == status_mark_of(is_pending, status),
        r.1 == status_width_of(r.0),
{
    if is_pending {
        return (StatusMark::PendingDelete, 18);
    }
    match status {
        FolderStatus::Deleted => (StatusMark::Deleted, 10),
        FolderStatus::Deleting => (StatusMark::Deleting, 14),
        FolderStatus::Error => (StatusMark::Failed, 15),
        FolderStatus::Found => (StatusMark::Nothing, 0),
    }
}

/// The sign of risk after a path: a skull for a dead directory, else a warning
/// for high risk and a flash for medium.
#[derive(Debug, Clone, Copy, PartialEq, Eq, Structural)]
pub enum RiskMark {
    Dead,
    High,
    Medium,
    Nothing,
}

pub open spec fn risk_mark_of(is_dead: bool, level: RiskLevel) -> RiskMark {
    if is_dead {
        RiskMark::Dead
    } else {
        match level {
            RiskLevel::High => RiskMark::High,
            RiskLevel::Medium => RiskMark::Medium,
            RiskLevel::Low => RiskMark::Nothing,
        }
    }
}

pub fn risk_mark(is_dead: bool, level: RiskLevel) -> (r: (RiskMark, usize))
    ensures
        r.0 == risk_mark_of(is_dead, level),
        r.1 == (if r.0 == RiskMark::Nothing { 0usize } else { 2usize }),
{
    if is_dead {
        return (RiskMark::Dead, 2);
    }
    match level {
        RiskLevel::High => (RiskMark::High, 2),
        RiskLevel::Medium => (RiskMark::Medium, 2),
        RiskLevel::Low => (RiskMark::Nothing, 0),
    }
}

/// How a path is drawn: dimmed once deleted, in the error colour after a failure,
/// highlighted at the cursor, shaded by age otherwise.
#[derive(Debug, Clone, Copy, PartialEq, Eq, Structural)]
pub enum PathTone {
    Dimmed,
    Failed,
    Highlighted,
    ByAge,
}

pub fn path_tone(status: FolderStatus, is_selected: bool) -> (t: PathTone)
    ensures
        t == (match status {
            FolderStatus::Deleted => PathTone::Dimmed,
            FolderStatus::Error => PathTone::Failed,
            _ => if is_selected { PathTone::Highlighted } else { PathTone::ByAge },
        }),
{
    match status {
        FolderStatus::Deleted => PathTone::Dimmed,
        FolderStatus::Error => PathTone::Failed,
        _ => {
            if is_selected {
                PathTone::Highlighted
            } else {
                PathTone::ByAge
            }
        },
    }
}

pub open spec fn sat_sub(a: int, b: int) -> int {
    if a >= b { a - b } else { 0 }
}

/// The width left for a path: the row less the prefix, the age and size columns,
/// the note and the risk sign, never below zero.
pub open spec fn path_room_of(width: u16, prefix: usize, meta: usize, status: usize, risk: usize) -> int {
    sat_sub(sat_sub(sat_sub(sat_sub(width as int, prefix as int), meta as int), status as int), risk as int)
}

pub fn path_room(width: u16, prefix: usize, meta: usize, status: usize, risk: usize) -> (r: usize)
    ensures
        r == path_room_of(width, prefix, meta, status, risk),
{
    (width as usize).saturating_sub(prefix).saturating_sub(meta).saturating_sub(status).saturating_sub(
        risk,
    )
}

/// `s` right-aligned in `w` columns, one column a character.
pub open spec fn pad_left(s: Seq<char>, w: nat) -> Seq<char> {
    if s.len() >= w {
        s
    } else {
        Seq::new((w - s.len()) as nat, |i: int| ' ') + s
    }
}

fn push_padded(out: &mut String, s: &str, w: usize)
    ensures
        final(out)@ == old(out)@ + pad_left(s@, w as nat),
{
    let chars = crate::text::chars_of(s);
    if chars.len() < w {
        let n = w - chars.len();
        let ghost before = out@;
        let mut i: usize = 0;
        while i < n
            invariant
                i <= n,
                out@ == before + Seq::new(i as nat, |k: int| ' '),
            decreases n - i,
        {
            crate::text::push_char(out, ' ');
            i = i + 1;
            assert(out@ =~= before + Seq::new(i as nat, |k: int| ' '));
        }
    }
    let ghost mid = out@;
    crate::text::append_str(out, s);
    assert(out@ =~= mid + s@);
    if chars.len() < w {
        assert(pad_left(s@, w as nat) =~= Seq::new((w - s@.len()) as nat, |i: int| ' ') + s@);
    }
}

/// The age and size columns of a row: two spaces, the age right-aligned in ten
/// columns, two spaces, the size right-aligned in ten.
pub fn meta_text(age: &str, size: &str) -> (m: String)
    ensures
        m@ == "  "@ + pad_left(age@, 10) + "  "@ + pad_left(size@, 10),
{
    let mut m = crate::text::string_of("  ");
    push_padded(&mut m, age, 10);
    crate::text::append_str(&mut m, "  ");
    push_padded(&mut m, size, 10);
    m
}

/// Where a long path is cut, in bytes: none when it fits or the room is under ten
/// columns; else half of the room less three for the start and the rest for the end.
pub open spec fn cuts_of(len: int, max_len: int) -> Option<(int, int)> {
    if len <= max_len || max_len < 10 {
        None
    } else {
        let keep = max_len - 3;
        let head = keep / 2;
        let tail = keep - head;
        Some((head, len - tail))
    }
}

pub fn truncation_cuts(len: usize, max_len: usize) -> (r: Option<(usize, usize)>)
    ensures
        match r {
            Some((h, t)) => cuts_of(len as int, max_len as int) == Some((h as int, t as int)),
            None => cuts_of(len as int, max_len as int) is None,
        },
{
    if len <= max_len || max_len < 10 {
        return None;
    }
    let keep = max_len - 3;
    let head = keep / 2;
    let tail = keep - head;
    Some((head, len - tail))
}

/// A path shortened to fit: its bytes up to the first cut, `...`, and its bytes
/// from the second cut; the path itself when no cut is due.
pub open spec fn truncated(path: &str, max_len: usize) -> Seq<char> {
    let b = path.spec_bytes();
    match cuts_of(b.len() as int, max_len as int) {
        None => path@,
        Some((h, t)) => vstd::utf8::decode_utf8(b.subrange(0, h)) + "..."@ + vstd::utf8::decode_utf8(b.subrange(t, b.len() as int)),
    }
}

/// Both cuts of a path fall between characters.
pub open spec fn cuts_at_boundaries(path: &str, max_len: usize) -> bool {
    let b = path.spec_bytes();
    match cuts_of(b.len() as int, max_len as int) {
        None => true,
        Some((h, t)) => vstd::utf8::is_char_boundary(b, h) && vstd::utf8::is_char_boundary(b, t),
    }
}

/// Shortens a path to fit in `max_len` bytes (see `truncated`).
pub fn truncate_path(path: &str, max_len: usize) -> (r: String)
    requires
        cuts_at_boundaries(path, max_len),
        path.spec_bytes().len() <= usize::MAX,
    ensures
        r@ == truncated(path, max_len),
{
    match truncation_cuts(path.len(), max_len) {
        None => crate::text::string_of(path),
        Some((h, t)) => {
            let (head, _) = path.split_at(h);
            let (_, tail) = path.split_at(t);
            proof {
                reveal_strlit("...");
                let b = path.spec_bytes();
                assert(head.spec_bytes() == b.subrange(0, h as int));
                assert(tail.spec_bytes() == b.subrange(t as int, b.len() as int));
                assert(vstd::utf8::decode_utf8(vstd::utf8::encode_utf8(head@)) == head@);
                assert(vstd::utf8::decode_utf8(vstd::utf8::encode_utf8(tail@)) == tail@);
            }
            let mut r = crate::text::string_of(head);
            crate::text::append_str(&mut r, "...");
            crate::text::append_str(&mut r, tail);
            r
        },
    }
}

/// An error shown in a popup `inner` columns wide: cut to `inner - 3` bytes with
/// `...` when it is longer than the popup.
pub open spec fn fitted_error(e: &str, inner: usize) -> Seq<char> {
    let b = e.spec_bytes();
    if b.len() > inner {
        vstd::utf8::decode_utf8(b.subrange(0, sat_sub(inner as int, 3))) + "..."@
    } else {
        e@
    }
}

pub open spec fn error_cut_at_boundary(e: &str, inner: usize) -> bool {
    let b = e.spec_bytes();
    b.len() > inner ==> vstd::utf8::is_char_boundary(b, sat_sub(inner as int, 3))
}

/// An error line as the popup shows it (see `fitted_error`).
pub fn fit_error_line(e: &str, inner: usize) -> (r: String)
    requires
        error_cut_at_boundary(e, inner),
        e.spec_bytes().len() <= usize::MAX,
    ensures
        r@ == fitted_error(e, inner),
{
    if e.len() > inner {
        let (head, _) = e.split_at(inner.saturating_sub(3));
        proof {
            reveal_strlit("...");
            let b = e.spec_bytes();
            assert(head.spec_bytes() == b.subrange(0, sat_sub(inner as int, 3)));
            assert(vstd::utf8::decode_utf8(vstd::utf8::encode_utf8(head@)) == head@);
        }
        let mut r = crate::text::string_of(head);
        crate::text::append_str(&mut r, "...");
        r
    } else {
        crate::text::string_of(e)
    }
}

/// The rows of the list on screen: from the scroll offset, as many as fit, not
/// past the end.
pub fn visible_rows(scroll: usize, height: usize, count: usize) -> (r: (usize, usize))
    requires
        scroll + height <= usize::MAX,
    ensures
        r.0 == scroll,
        r.1 == (if scroll + height < count { scroll + height } else { count as int }),
{
    let end = scroll + height;
    (scroll, if end < count { end } else { count })
}

/// The cell of the scanning bar at column `i` when the sweep is at `pos`: full
/// behind the sweep, shaded at its two leading columns, light ahead of it.
pub open spec fn bar_cell(i: int, pos: int) -> char {
    if i < sat_sub(pos, 2) {
        '\u{2588}'
    } else if i < pos {
        '\u{2593}'
    } else {
        '\u{2591}'
    }
}

/// The scanning bar for a row `width` columns wide at a time in milliseconds: 30
/// columns fewer than the row, the sweep moving a column every 100 ms.
pub open spec fn progress_bar_of(width: u16, ms: u64) -> Seq<char> {
    let w = sat_sub(width as int, 30);
    let pos = ((ms / 100) as usize as int) % (if w > 1 { w } else { 1 });
    Seq::new(w as nat, |i: int| bar_cell(i, pos))
}

pub fn progress_bar(width: u16, ms: u64) -> (s: String)
    ensures
        s@ == progress_bar_of(width, ms),
{
    let w = (width as usize).saturating_sub(30);
    let tick = (ms / 100) as usize;
    let m = if w > 1 { w } else { 1 };
    let pos = tick % m;
    let mut s = String::new();
    let mut i: usize = 0;
    while i < w
        invariant
            i <= w,
            w == sat_sub(width as int, 30),
            pos == ((ms / 100) as usize as int) % (if w > 1 { w as int } else { 1 }),
            s@ =~= Seq::new(i as nat, |k: int| bar_cell(k, pos as int)),
        decreases w - i,
    {
        let c = if i < pos.saturating_sub(2) {
            '\u{2588}'
        } else if i < pos {
            '\u{2593}'
        } else {
            '\u{2591}'
        };
        crate::text::push_char(&mut s, c);
        i = i + 1;
    }
    s
}

/// A popup centred in an area: at most `max_w` by `max_h`, four columns and rows
/// smaller than the area; its column, row, width and height.
pub open spec fn centered_popup_of(area_w: u16, area_h: u16, max_w: u16, max_h: u16) -> (int, int, int, int) {
    let w = if (max_w as int) < sat_sub(area_w as int, 4) { max_w as int } else { sat_sub(area_w as int, 4) };
    let h = if (max_h as int) < sat_sub(area_h as int, 4) { max_h as int } else { sat_sub(area_h as int, 4) };
    (sat_sub(area_w as int, w) / 2, sat_sub(area_h as int, h) / 2, w, h)
}

pub fn centered_popup(area_w: u16, area_h: u16, max_w: u16, max_h: u16) -> (r: (u16, u16, u16, u16))
    ensures
        (r.0 as int, r.1 as int, r.2 as int, r.3 as int) == centered_popup_of(area_w, area_h, max_w, max_h),
{
    let aw = area_w.saturating_sub(4);
    let ah = area_h.saturating_sub(4);
    let w = if max_w < aw { max_w } else { aw };
    let h = if max_h < ah { max_h } else { ah };
    (area_w.saturating_sub(w) / 2, area_h.saturating_sub(h) / 2, w, h)
}

/// The search bar: at most 60 columns, four less than the area, centred, three
/// rows high, its top four rows above the bottom.
pub fn search_popup(area_w: u16, area_h: u16) -> (r: (u16, u16, u16, u16))
    ensures
        r.2 == (if 60 < sat_sub(area_w as int, 4) { 60 } else { sat_sub(area_w as int, 4) }),
        r.0 == sat_sub(area_w as int, r.2 as int) / 2,
        r.1 == sat_sub(area_h as int, 4),
        r.3 == 3,
{
    let aw = area_w.saturating_sub(4);
    let w: u16 = if 60 < aw { 60 } else { aw };
    (area_w.saturating_sub(w) / 2, area_h.saturating_sub(4), w, 3)
}

/// The first error the popup lists: the latest ones that fit in its height less
/// three rows.
pub fn first_shown_error(count: usize, popup_height: u16) -> (start: usize)
    ensures
        start == sat_sub(count as int, sat_sub(popup_height as int, 3)),
{
    count.saturating_sub(popup_height.saturating_sub(3) as usize)
}

/// The badge after the quote in the header for the current mode.
pub fn mode_badge(mode: AppMode) -> (s: &'static str)
    ensures
        s@ == (match mode {
            AppMode::MultiSelect => " [MULTI-SELECT] "@,
            AppMode::RangeSelect => " [RANGE-SELECT] "@,
            AppMode::Deleting => " [DELETING...] "@,
            _ => ""@,
        }),
{
    match mode {
        AppMode::MultiSelect => " [MULTI-SELECT] ",
        AppMode::RangeSelect => " [RANGE-SELECT] ",
        AppMode::Deleting => " [DELETING...] ",
        _ => "",
    }
}

/// Where the cursor is among the shown results: `[position/count]`, counting from one.
pub fn page_indicator(selected: usize, count: usize) -> (s: String)
    requires
        selected < usize::MAX,
    ensures
        s@ == "["@ + crate::text::decimal((selected + 1) as nat) + "/"@ + crate::text::decimal(count as nat)
            + "]"@,
{
    proof {
        reveal_strlit("[");
        reveal_strlit("/");
        reveal_strlit("]");
    }
    let mut s = crate::text::string_of("[");
    crate::text::push_decimal(&mut s, (selected + 1) as u64);
    crate::text::append_str(&mut s, "/");
    crate::text::push_decimal(&mut s, count as u64);
    crate::text::append_str(&mut s, "]");
    s
}

} // verus!
