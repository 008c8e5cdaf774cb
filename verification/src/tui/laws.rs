use vstd::prelude::*;

use crate::paths::same_path;
use crate::sorting::is_stable_sort;
use crate::tui::app::{
    desc_order, event_jobs, lemma_set_insert_distinct, lemma_select_range_distinct, select_range, ListEvent,
    covers, selection_has, is_multi, lemma_lookup_bounds, lemma_lookup_same_paths, lemma_result_order_preorder, lookup, result_order,
    sort_mode_next, undo_split, AppMode, AppView, FolderResult, FolderStatus, SortMode, UndoEntry,
};

verus! {

/// Pressing `s` three times comes back to the sort order one started from: path,
/// size, last-mod, path.
pub proof fn law_sort_cycle(v: AppView)
    ensures
        sort_mode_next(sort_mode_next(sort_mode_next(v.sort_mode))) == v.sort_mode,
        v.after_cycle_sort().after_cycle_sort().after_cycle_sort().sort_mode == v.sort_mode,
        v.after_cycle_sort().after_cycle_sort().after_cycle_sort().results == v.results,
        sort_mode_next(SortMode::Path) == SortMode::Size,
        sort_mode_next(SortMode::Size) == SortMode::LastMod,
        sort_mode_next(SortMode::LastMod) == SortMode::Path,
{
}

/// Restoring a directory from the undo stack undoes its deletion: the results and
/// the space freed are as before it was marked deleted.
pub proof fn law_restore_undoes_delete(v: AppView, path: Seq<char>, freed: u64)
    requires
        lookup(v.results, path) matches Some(i) && v.results[i].status == FolderStatus::Found,
        v.freed_space + freed <= u64::MAX,
    ensures
        v.after_mark_deleted(path, freed).after_restore(path, freed).results == v.results,
        v.after_mark_deleted(path, freed).after_restore(path, freed).freed_space == v.freed_space,
{
    lemma_lookup_bounds(v.results, path);
    let i = lookup(v.results, path)->0;
    let w = v.after_mark_deleted(path, freed);
    lemma_lookup_same_paths(v.results, w.results, path);
    let u = w.after_restore(path, freed);
    assert(u.results =~= v.results);
}

/// Sizing a directory again with its former size and time undoes a resize: the
/// results and the total are as before.
pub proof fn law_resize_undone(v: AppView, path: Seq<char>, size: u64, newest_ms: u64)
    requires
        v.wf(),
        lookup(v.results, path) matches Some(i) && v.resized_total(i, size) <= u64::MAX,
    ensures
        ({
            let i = lookup(v.results, path)->0;
            let u = v.after_update_size(path, size, newest_ms).after_update_size(
                path,
                v.results[i].size_bytes,
                v.results[i].newest_ms,
            );
            u.results == v.results && u.total_size == v.total_size
        }),
{
    lemma_lookup_bounds(v.results, path);
    let i = lookup(v.results, path)->0;
    crate::sorting::lemma_sum_ge_elem(v.results, i, crate::tui::app::size_weight());
    let w = v.after_update_size(path, size, newest_ms);
    lemma_lookup_same_paths(v.results, w.results, path);
    let u = w.after_update_size(path, v.results[i].size_bytes, v.results[i].newest_ms);
    assert(u.results =~= v.results);
}

/// Escape leaves search with an empty query, leaves a select mode with nothing
/// selected, leaves help, and leaves the list alone otherwise.
pub proof fn law_escape_cancels(v: AppView)
    ensures
        v.mode == AppMode::Search ==> v.after_escape().mode == AppMode::Normal
            && v.after_escape().search_query.len() == 0,
        is_multi(v.mode) ==> v.after_escape().mode == AppMode::Normal && v.after_escape().selected_paths.len()
            == 0 && v.after_escape().range_start is None,
        v.mode == AppMode::Help ==> v.after_escape().mode == AppMode::Normal,
        v.after_escape().results == v.results,
        (v.mode == AppMode::Normal || v.mode == AppMode::Deleting || v.mode == AppMode::Preview)
            ==> v.after_escape() == v,
{
}

/// Turning multi-select on and off again leaves the normal mode with nothing
/// selected.
pub proof fn law_multi_select_round_trip(v: AppView)
    requires
        v.mode != AppMode::MultiSelect,
    ensures
        v.after_toggle_multi().mode == AppMode::MultiSelect,
        v.after_toggle_multi().after_toggle_multi().mode == AppMode::Normal,
        v.after_toggle_multi().after_toggle_multi().selected_paths.len() == 0,
        v.after_toggle_multi().after_toggle_multi().range_start is None,
        v.after_toggle_multi().after_toggle_multi().results == v.results,
{
}

/// A search typed and then left shows no query and the normal mode again, with the
/// results untouched.
pub proof fn law_search_round_trip(v: AppView, c: char)
    ensures
        v.after_enter_search().after_push_char(c).search_query == seq![c],
        v.after_enter_search().after_push_char(c).after_pop_char().search_query.len() == 0,
        v.after_enter_search().after_push_char(c).after_exit_search().mode == AppMode::Normal,
        v.after_enter_search().after_push_char(c).after_exit_search().search_query.len() == 0,
        v.after_enter_search().after_push_char(c).after_exit_search().results == v.results,
{
    assert(seq![].push(c) =~= seq![c]);
    assert(seq![c].drop_last() =~= Seq::<char>::empty());
}

/// Some entry of `u` had expired by `now` and had `trash` as its trash path.
pub open spec fn expired_with(u: Seq<UndoEntry>, now: u64, trash: String) -> bool {
    exists|j: int| 0 <= j < u.len() && now >= (#[trigger] u[j]).expires_ms && u[j].trash_path == trash
}

/// Cleaning up the undo stack splits it: the entries kept are those not yet
/// expired, in order, and the trash paths handed back are those of the expired
/// ones; nothing is lost.
pub proof fn law_undo_cleanup_partitions(u: Seq<UndoEntry>, now: u64)
    ensures
        undo_split(u, now).0.len() + undo_split(u, now).1.len() == u.len(),
        forall|i: int|
            0 <= i < undo_split(u, now).0.len() ==> now < (#[trigger] undo_split(u, now).0[i]).expires_ms
                && u.contains(undo_split(u, now).0[i]),
        forall|j: int| 0 <= j < u.len() && now < (#[trigger] u[j]).expires_ms ==> undo_split(u, now).0.contains(u[j]),
        forall|i: int|
            0 <= i < undo_split(u, now).1.len() ==> expired_with(u, now, #[trigger] undo_split(u, now).1[i]),
    decreases u.len(),
{
    if u.len() > 0 {
        let rest = u.drop_last();
        law_undo_cleanup_partitions(rest, now);
        let (k0, e0) = undo_split(rest, now);
        let (k, e) = undo_split(u, now);
        let n = u.len() - 1;
        assert forall|i: int| 0 <= i < k.len() implies now < (#[trigger] k[i]).expires_ms && u.contains(k[i]) by {
            if i < k0.len() {
                assert(k[i] == k0[i]);
                let j = choose|j: int| 0 <= j < rest.len() && rest[j] == k0[i];
                assert(u[j] == rest[j]);
            } else {
                assert(k[i] == u[n]);
            }
        }
        assert forall|j: int| 0 <= j < u.len() && now < (#[trigger] u[j]).expires_ms implies k.contains(u[j]) by {
            if j < n {
                assert(rest[j] == u[j]);
                assert(k0.contains(rest[j]));
                let m = choose|m: int| 0 <= m < k0.len() && k0[m] == rest[j];
                if now >= u[n].expires_ms {
                    assert(k[m] == k0[m]);
                } else {
                    assert(k[m] == k0[m]);
                }
            } else {
                assert(k[k.len() - 1] == u[n]);
            }
        }
        assert forall|i: int| 0 <= i < e.len() implies expired_with(u, now, #[trigger] e[i]) by {
            if i < e0.len() {
                assert(e[i] == e0[i]);
                assert(expired_with(rest, now, e0[i]));
                let j = choose|j: int| 0 <= j < rest.len() && now >= (#[trigger] rest[j]).expires_ms && rest[j].trash_path == e0[i];
                assert(u[j] == rest[j]);
            } else {
                assert(e[i] == u[n].trash_path);
                assert(now >= u[n].expires_ms);
                assert(u[n].trash_path == e[i]);
            }
        }
    }
}

/// A second cleanup at the same time finds nothing more to drop.
pub proof fn law_undo_cleanup_idempotent(u: Seq<UndoEntry>, now: u64)
    ensures
        undo_split(undo_split(u, now).0, now).0 == undo_split(u, now).0,
        undo_split(undo_split(u, now).0, now).1.len() == 0,
{
    law_undo_cleanup_partitions(u, now);
    lemma_split_unexpired(undo_split(u, now).0, now);
}

proof fn lemma_split_unexpired(k: Seq<UndoEntry>, now: u64)
    requires
        forall|i: int| 0 <= i < k.len() ==> now < (#[trigger] k[i]).expires_ms,
    ensures
        undo_split(k, now).0 == k,
        undo_split(k, now).1.len() == 0,
    decreases k.len(),
{
    if k.len() > 0 {
        let rest = k.drop_last();
        assert forall|i: int| 0 <= i < rest.len() implies now < (#[trigger] rest[i]).expires_ms by {
            assert(rest[i] == k[i]);
        }
        lemma_split_unexpired(rest, now);
        assert(now < k[k.len() - 1].expires_ms);
        assert(rest.push(k.last()) =~= k);
    }
}

/// What `lookup` finds is the last result with the path.
proof fn lemma_lookup_last(rs: Seq<FolderResult>, p: Seq<char>)
    ensures
        lookup(rs, p) matches Some(j) ==> forall|k: int| j < k < rs.len() ==> !same_path(#[trigger] rs[k].path@, p),
    decreases rs.len(),
{
    if rs.len() > 0 && !same_path(rs.last().path@, p) {
        let rest = rs.drop_last();
        lemma_lookup_last(rest, p);
        lemma_lookup_bounds(rest, p);
        if let Some(j) = lookup(rs, p) {
            assert forall|k: int| j < k < rs.len() implies !same_path(#[trigger] rs[k].path@, p) by {
                if k < rs.len() - 1 {
                    assert(rs[k] == rest[k]);
                }
            }
        }
    }
}

/// Every result's own path finds it, or a later result with the same path; a
/// result whose path no other result shares finds exactly itself.
pub proof fn law_lookup_finds_own_index(rs: Seq<FolderResult>, i: int)
    requires
        0 <= i < rs.len(),
    ensures
        lookup(rs, rs[i].path@) matches Some(j) && i <= j < rs.len() && same_path(rs[j].path@, rs[i].path@),
        (forall|k: int| 0 <= k < rs.len() && k != i ==> !same_path(#[trigger] rs[k].path@, rs[i].path@))
            ==> lookup(rs, rs[i].path@) == Some(i),
{
    let p = rs[i].path@;
    assert(same_path(p, p));
    lemma_lookup_bounds(rs, p);
    lemma_lookup_last(rs, p);
    let j = lookup(rs, p)->0;
    if j < i {
        assert(!same_path(rs[i].path@, p));
    }
}

/// After the results are sorted again, a path finds a result exactly when it
/// found one before, and the result it finds has that path.
pub proof fn law_lookup_after_resort(old: Seq<FolderResult>, new: Seq<FolderResult>, mode: SortMode, p: Seq<char>)
    requires
        is_stable_sort(old, new, result_order(mode)),
    ensures
        lookup(new, p) is Some <==> lookup(old, p) is Some,
        lookup(new, p) matches Some(j) ==> 0 <= j < new.len() && same_path(new[j].path@, p),
{
    broadcast use vstd::seq_lib::group_to_multiset_ensures;

    lemma_result_order_preorder(mode);
    crate::sorting::law_stable_sort_permutes(old, new, result_order(mode));
    lemma_lookup_bounds(old, p);
    lemma_lookup_bounds(new, p);
    if let Some(j) = lookup(new, p) {
        assert(new.contains(new[j]));
        assert(old.to_multiset().count(new[j]) > 0);
        assert(old.contains(new[j]));
        let m = choose|m: int| 0 <= m < old.len() && old[m] == new[j];
        assert(same_path(old[m].path@, p));
    }
    if let Some(j) = lookup(old, p) {
        assert(old.contains(old[j]));
        assert(new.to_multiset().count(old[j]) > 0);
        assert(new.contains(old[j]));
        let m = choose|m: int| 0 <= m < new.len() && new[m] == old[j];
        assert(same_path(new[m].path@, p));
    }
}

/// `A` toggles: in a select mode, once it has selected the found results in the
/// list, pressing it again deselects everything; and a selection that already holds
/// every such result is cleared by it.
pub proof fn law_select_all_toggles(v: AppView)
    requires
        is_multi(v.mode),
    ensures
        v.after_select_all().selected_paths == v.selectable() ==> v.after_select_all().after_select_all().selected_paths.len() == 0,
        covers(v.selected_paths, v.selectable()) ==> v.after_select_all().selected_paths.len() == 0,
{
    let f = v.selectable();
    assert forall|i: int| 0 <= i < f.len() implies selection_has(f, #[trigger] f[i]@) by {
        assert(same_path(f[i]@, f[i]@));
    }
    let w = v.after_select_all();
    if w.selected_paths == f {
        assert(w.selectable() == f);
        assert(covers(w.selected_paths, w.selectable()));
    }
}

/// After a sort, the results stand in the order the mode names: last-mod puts the
/// newest modification first, size the largest first, path in path order.
pub proof fn law_sort_orders_by_mode(old: Seq<FolderResult>, new: Seq<FolderResult>, mode: SortMode)
    requires
        is_stable_sort(old, new, result_order(mode)),
    ensures
        new.len() == old.len(),
        mode == SortMode::LastMod ==> forall|i: int, j: int|
            0 <= i < j < new.len() ==> (#[trigger] new[i]).newest_ms >= (#[trigger] new[j]).newest_ms,
        mode == SortMode::Size ==> forall|i: int, j: int|
            0 <= i < j < new.len() ==> (#[trigger] new[i]).size_bytes >= (#[trigger] new[j]).size_bytes,
        mode == SortMode::Path ==> forall|i: int, j: int|
            0 <= i < j < new.len() ==> crate::paths::path_order((#[trigger] new[i]).path@, (#[trigger] new[j]).path@)
                <= 0,
{
    let ord = result_order(mode);
    assert forall|i: int, j: int| 0 <= i < j < new.len() implies ord(#[trigger] new[i], #[trigger] new[j]) <= 0 by {}
    if mode == SortMode::LastMod {
        assert forall|i: int, j: int| 0 <= i < j < new.len() implies (#[trigger] new[i]).newest_ms >= (
        #[trigger] new[j]).newest_ms by {
            assert(ord(new[i], new[j]) <= 0);
            assert(ord(new[i], new[j]) == desc_order(new[i].newest_ms, new[j].newest_ms));
        }
    }
    if mode == SortMode::Size {
        assert forall|i: int, j: int| 0 <= i < j < new.len() implies (#[trigger] new[i]).size_bytes >= (
        #[trigger] new[j]).size_bytes by {
            assert(ord(new[i], new[j]) <= 0);
            assert(ord(new[i], new[j]) == desc_order(new[i].size_bytes, new[j].size_bytes));
        }
    }
    if mode == SortMode::Path {
        assert forall|i: int, j: int| 0 <= i < j < new.len() implies crate::paths::path_order(
            (#[trigger] new[i]).path@,
            (#[trigger] new[j]).path@,
        ) <= 0 by {
            assert(ord(new[i], new[j]) <= 0);
        }
    }
}

/// Once the scan is complete, one risk job starts per result, in order, each for
/// that result's path and naming that result's own directory name (or
/// `node_modules` for a path that has no file name).
pub proof fn law_risk_job_names_the_directory(v: AppView, d: u64, i: int)
    requires
        0 <= i < v.results.len(),
    ensures
        event_jobs(v, ListEvent::ScanComplete(d)).len() == v.results.len(),
        event_jobs(v, ListEvent::ScanComplete(d))[i].0 == false,
        event_jobs(v, ListEvent::ScanComplete(d))[i].1 == v.results[i].path@,
        crate::paths::file_name_of(v.results[i].path@) matches Some(n) ==> event_jobs(
            v,
            ListEvent::ScanComplete(d),
        )[i].2 == n,
        crate::paths::file_name_of(v.results[i].path@) is None ==> event_jobs(
            v,
            ListEvent::ScanComplete(d),
        )[i].2 == "node_modules"@,
{
}

/// The filtered position `k` shows a found result.
pub open spec fn found_at(rs: Seq<FolderResult>, f: Seq<usize>, k: int) -> bool {
    0 <= k < f.len() && f[k] < rs.len() && rs[f[k] as int].status == FolderStatus::Found
}

/// `sel` selects exactly the found results at filtered positions from `a` to `b`,
/// taken in either order, both ends included.
pub open spec fn selects_exactly_between(sel: Seq<String>, rs: Seq<FolderResult>, f: Seq<usize>, a: int, b: int) -> bool {
    let lo = if a <= b { a } else { b };
    let hi = if a <= b { b } else { a };
    &&& forall|k: int| lo <= k <= hi && found_at(rs, f, k) ==> selection_has(sel, #[trigger] rs[f[k] as int].path@)
    &&& forall|q: Seq<char>|
        #![trigger selection_has(sel, q)]
        selection_has(sel, q) ==> exists|k: int|
            lo <= k <= hi && #[trigger] found_at(rs, f, k) && same_path(rs[f[k] as int].path@, q)
}

proof fn lemma_select_range_has(rs: Seq<FolderResult>, f: Seq<usize>, lo: int, k: int, q: Seq<char>)
    ensures
        selection_has(select_range(rs, f, lo, k), q) <==> exists|j: int|
            lo <= j < k && #[trigger] found_at(rs, f, j) && same_path(rs[f[j] as int].path@, q),
    decreases k - lo,
{
    if k > lo {
        lemma_select_range_has(rs, f, lo, k - 1, q);
        lemma_select_range_distinct(rs, f, lo, k - 1);
        let prev = select_range(rs, f, lo, k - 1);
        if found_at(rs, f, k - 1) {
            lemma_set_insert_distinct(prev, rs[f[k - 1] as int].path);
        }
    } else {
        assert(select_range(rs, f, lo, k) =~= Seq::<String>::empty());
    }
}

proof fn lemma_range_selection_exact(rs: Seq<FolderResult>, f: Seq<usize>, a: int, b: int)
    ensures
        selects_exactly_between(
            select_range(rs, f, if a <= b { a } else { b }, (if a <= b { b } else { a }) + 1),
            rs,
            f,
            a,
            b,
        ),
{
    let lo = if a <= b { a } else { b };
    let hi = if a <= b { b } else { a };
    let sel = select_range(rs, f, lo, hi + 1);
    assert forall|k: int| lo <= k <= hi && found_at(rs, f, k) implies selection_has(sel, #[trigger] rs[f[k] as int].path@) by {
        let p = rs[f[k] as int].path@;
        lemma_select_range_has(rs, f, lo, hi + 1, p);
        assert(same_path(p, p));
    }
    assert forall|q: Seq<char>| #[trigger] selection_has(sel, q) implies exists|k: int|
        lo <= k <= hi && #[trigger] found_at(rs, f, k) && same_path(rs[f[k] as int].path@, q) by {
        lemma_select_range_has(rs, f, lo, hi + 1, q);
    }
}

/// In range-select mode the selection is exactly the found results between the
/// anchor and the cursor, whichever side of the anchor the cursor is on.
pub proof fn law_range_select_between_anchor_and_cursor(v: AppView)
    requires
        v.range_start is Some,
    ensures
        selects_exactly_between(
            v.after_range_update().selected_paths,
            v.results,
            v.filtered_indices,
            v.range_start->0 as int,
            v.selected_index as int,
        ),
{
    lemma_range_selection_exact(v.results, v.filtered_indices, v.range_start->0 as int, v.selected_index as int);
}

/// Moving the cursor in range-select mode clamps it to the list and selects
/// exactly the found results between the anchor and where the cursor lands.
pub proof fn law_range_select_follows_the_cursor(v: AppView, delta: i32)
    requires
        v.mode == AppMode::RangeSelect,
        v.range_start is Some,
        v.filtered_indices.len() > 0,
        crate::tui::app::move_fits(v, delta),
    ensures
        ({
            let target = (v.selected_index as i32) + delta;
            let last = (v.filtered_indices.len() as i32) - 1;
            let w = v.after_move(delta);
            &&& w.selected_index == (if target < 0 { 0 } else if target > last { last } else { target })
            &&& selects_exactly_between(
                w.selected_paths,
                v.results,
                v.filtered_indices,
                v.range_start->0 as int,
                w.selected_index as int,
            )
        }),
{
    let w = v.after_move(delta);
    let target = (v.selected_index as i32) + delta;
    let last = (v.filtered_indices.len() as i32) - 1;
    let c = crate::tui::app::clamp_int(target, 0, last);
    assert(0 <= c <= last);
    assert(w.selected_index == c as usize);
    assert(w.selected_index == (if target < 0 { 0 } else if target > last { last } else { target }));
    lemma_range_selection_exact(v.results, v.filtered_indices, v.range_start->0 as int, w.selected_index as int);
}

} // verus!
