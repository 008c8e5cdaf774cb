use vstd::prelude::*;

verus! {

/// The outcome of deleting one directory.
pub enum DeleteResult {
    Success { path: String, freed_bytes: u64 },
    Error { path: String, message: String, freed_bytes: u64 },
}

/// The name of the hidden trash directory that a deletion moves a directory to
/// first: `.hakai_trash_` and the time in nanoseconds in lower-case hex.
pub open spec fn trash_name(nanos: u128) -> Seq<char> {
    ".hakai_trash_"@ + crate::text::hex(nanos as nat)
}

/// Where a directory goes before it is deleted: a trash directory beside it, named
/// by the time `nanos`. `None` when the directory has no parent.
pub open spec fn trash_path_of(p: Seq<char>, nanos: u128) -> Option<Seq<char>> {
    match crate::paths::parent_of(p) {
        Some(q) => Some(crate::paths::joined(q, trash_name(nanos))),
        None => None,
    }
}

/// The path that the deleter works on, on Unix: the path itself.
pub fn fast_path(path: &str) -> (r: String)
    ensures
        r@ == path@,
{
    crate::text::string_of(path)
}

/// The path that the deleter works on, on Windows: the path with the `\\?\`
/// prefix that lifts the length limit, unless it has it already.
pub fn fast_path_windows(path: &str) -> (r: String)
    ensures
        r@ == (if crate::text::starts_with_chars(path@, "\\\\?\\"@) { path@ } else { "\\\\?\\"@ + path@ }),
{
    let p = crate::text::chars_of(path);
    let prefix = crate::text::chars_of("\\\\?\\");
    if crate::text::starts_with_exec(&p, &prefix) {
        crate::text::string_of(path)
    } else {
        let mut r = crate::text::string_of("\\\\?\\");
        crate::text::append_str(&mut r, path);
        r
    }
}

/// The trash directory lies beside the directory it takes in: both have the same
/// parent, so moving a directory to its trash is a rename within one directory;
/// and its file name is the hidden trash name.
pub proof fn law_trash_beside(path: Seq<char>, nanos: u128)
    requires
        trash_path_of(path, nanos) is Some,
    ensures
        crate::paths::parent_of(trash_path_of(path, nanos)->0) == crate::paths::parent_of(path),
        crate::paths::file_name_of(trash_path_of(path, nanos)->0) == Some(trash_name(nanos)),
{
    crate::text::lemma_hex_no_sep(nanos as nat);
    reveal_strlit(".hakai_trash_");
    let name = trash_name(nanos);
    assert forall|i: int| 0 <= i < name.len() implies name[i] != '/' by {
        if i >= 13 {
            assert(name[i] == crate::text::hex(nanos as nat)[i - 13]);
        }
    }
    crate::paths::lemma_joined_parent(path, name);
    assert(name[1] == 'h');
    crate::paths::lemma_joined_file_name(crate::paths::parent_of(path)->0, name);
}

/// The trash path for a directory at the time `nanos` (see `trash_path_of`).
pub fn trash_path_at(path: &str, nanos: u128) -> (r: Option<String>)
    ensures
        match r {
            Some(s) => trash_path_of(path@, nanos) == Some(s@),
            None => trash_path_of(path@, nanos).is_none(),
        },
{
    match crate::paths::parent_path(path) {
        Some(parent) => {
            let mut name = crate::text::string_of(".hakai_trash_");
            crate::text::push_hex(&mut name, nanos);
            Some(crate::paths::join_path(parent.as_str(), name.as_str()))
        },
        None => None,
    }
}

/// The trash path for a directory now, by the clock.
pub fn trash_path_for(path: &str) -> (r: Option<String>)
    ensures
        match r {
            Some(s) => exists|t: u128| #[trigger] trash_path_of(path@, t) == Some(s@),
            None => crate::paths::parent_of(path@).is_none(),
        },
{
    let t = crate::clock::now_nanos();
    trash_path_at(path, t)
}

/// The result that a removal gives: the bytes freed, or the bytes freed before it
/// failed and why.
pub fn removal_result(path: String, outcome: Result<u64, (u64, String)>) -> (r: DeleteResult)
    ensures
        match outcome {
            Ok(freed) => r == DeleteResult::Success { path, freed_bytes: freed },
            Err((freed, message)) => r == DeleteResult::Error { path, message, freed_bytes: freed },
        },
{
    match outcome {
        Ok(freed_bytes) => DeleteResult::Success { path, freed_bytes },
        Err((freed_bytes, message)) => DeleteResult::Error { path, message, freed_bytes },
    }
}

/// Deletes a directory, or in a dry run only measures it. `measure` gives the size
/// of what is at a path; `remove` removes it and gives the bytes freed, or the
/// bytes freed before it failed and the reason.
pub fn delete_dir<M: FnOnce(&String) -> u64, R: FnOnce(&String) -> Result<u64, (u64, String)>>(
    path: String,
    dry_run: bool,
    measure: M,
    remove: R,
) -> (r: DeleteResult)
    requires
        dry_run ==> measure.requires((&path,)),
        !dry_run ==> remove.requires((&path,)),
    ensures
        dry_run ==> exists|n: u64| #[trigger] measure.ensures((&path,), n) && r == (DeleteResult::Success { path, freed_bytes: n }),
        !dry_run ==> removed_in_place(path, remove, r),
{
    if dry_run {
        let size = measure(&path);
        return DeleteResult::Success { path, freed_bytes: size };
    }
    let outcome = remove(&path);
    removal_result(path, outcome)
}

/// What a removal of `path` with outcome `o` gives (see `removal_result`).
pub open spec fn removed(path: String, o: Result<u64, (u64, String)>) -> DeleteResult {
    match o {
        Ok(freed) => DeleteResult::Success { path, freed_bytes: freed },
        Err((freed, message)) => DeleteResult::Error { path, message, freed_bytes: freed },
    }
}

/// Deletes a directory whose size is already known: in a dry run that size is the
/// answer; otherwise the directory is first renamed into a trash directory beside
/// it (so that it is gone at once) and the trash is removed. Where it has no
/// parent or the rename fails, it is deleted in place (see `delete_dir`). The
/// result names the directory as it was given. A dry run renames and removes
/// nothing: `rename` and `remove` need to be callable only outside one.
pub fn delete_dir_instant<
    N: FnOnce(&String, &String) -> bool,
    M: FnOnce(&String) -> u64,
    R: FnOnce(&String) -> Result<u64, (u64, String)>,
>(
    path: String,
    known_size: u64,
    dry_run: bool,
    rename: N,
    measure: M,
    remove: R,
) -> (r: DeleteResult)
    requires
        !dry_run ==> forall|a: &String, b: &String| #[trigger] rename.requires((a, b)),
        !dry_run ==> forall|p: &String| #[trigger] remove.requires((p,)),
    ensures
        dry_run ==> r == (DeleteResult::Success { path, freed_bytes: known_size }),
        !dry_run && crate::paths::parent_of(path@) is Some ==> moved_then_removed(path, rename, remove, r)
            || rename_refused_then_removed_in_place(path, rename, remove, r),
        !dry_run && crate::paths::parent_of(path@) is None ==> removed_in_place(path, remove, r),
{
    if dry_run {
        return DeleteResult::Success { path, freed_bytes: known_size };
    }
    match trash_path_for(path.as_str()) {
        Some(trash) => {
            if rename(&path, &trash) {
                let outcome = remove(&trash);
                let r = removal_result(path, outcome);
                proof {
                    assert(rename.ensures((&path, &trash), true));
                    assert(remove.ensures((&trash,), outcome));
                    assert(moved_then_removed(path, rename, remove, r));
                }
                return r;
            }
            let ghost p0 = path;
            let r = delete_dir(path, false, measure, remove);
            proof {
                assert(rename.ensures((&p0, &trash), false));
                assert(rename_refused_then_removed_in_place(p0, rename, remove, r));
            }
            r
        },
        None => delete_dir(path, false, measure, remove),
    }
}

/// `path` was first offered a trash path beside it, which `rename` refused; then
/// removing `path` where it stands gave `r`.
pub open spec fn rename_refused_then_removed_in_place<
    N: FnOnce(&String, &String) -> bool,
    R: FnOnce(&String) -> Result<u64, (u64, String)>,
>(path: String, rename: N, remove: R, r: DeleteResult) -> bool {
    &&& exists|t: String|
        #![trigger rename.ensures((&path, &t), false)]
        (exists|n: u128| #[trigger] trash_path_of(path@, n) == Some(t@)) && rename.ensures((&path, &t), false)
    &&& removed_in_place(path, remove, r)
}

/// Deletes one directory of a batch: one whose size is already known goes through
/// the trash (see `delete_dir_instant`), any other is deleted in place, or measured
/// in a dry run (see `delete_dir`). A dry run renames and removes nothing, and a
/// directory whose size is known is not measured again.
pub fn delete_batch_item<
    N: FnOnce(&String, &String) -> bool,
    M: FnOnce(&String) -> u64,
    R: FnOnce(&String) -> Result<u64, (u64, String)>,
>(
    path: String,
    known_size: u64,
    dry_run: bool,
    rename: N,
    measure: M,
    remove: R,
) -> (r: DeleteResult)
    requires
        known_size > 0 && !dry_run ==> forall|a: &String, b: &String| #[trigger] rename.requires((a, b)),
        known_size == 0 && dry_run ==> forall|p: &String| #[trigger] measure.requires((p,)),
        !dry_run ==> forall|p: &String| #[trigger] remove.requires((p,)),
    ensures
        known_size > 0 && dry_run ==> r == (DeleteResult::Success { path, freed_bytes: known_size }),
        known_size > 0 && !dry_run && crate::paths::parent_of(path@) is Some ==> moved_then_removed(
            path,
            rename,
            remove,
            r,
        ) || rename_refused_then_removed_in_place(path, rename, remove, r),
        known_size > 0 && !dry_run && crate::paths::parent_of(path@) is None ==> removed_in_place(
            path,
            remove,
            r,
        ),
        known_size == 0 && dry_run ==> exists|n: u64| #[trigger] measure.ensures((&path,), n) && r == (
        DeleteResult::Success { path, freed_bytes: n }),
        known_size == 0 && !dry_run ==> removed_in_place(path, remove, r),
{
    if known_size > 0 {
        delete_dir_instant(path, known_size, dry_run, rename, measure, remove)
    } else {
        delete_dir(path, dry_run, measure, remove)
    }
}

/// `path` was renamed to a trash path beside it, and removing the trash gave `r`.
pub open spec fn moved_then_removed<
    N: FnOnce(&String, &String) -> bool,
    R: FnOnce(&String) -> Result<u64, (u64, String)>,
>(path: String, rename: N, remove: R, r: DeleteResult) -> bool {
    exists|t: String, o: Result<u64, (u64, String)>|
        #![trigger rename.ensures((&path, &t), true), remove.ensures((&t,), o)]
        {
            &&& (exists|n: u128| #[trigger] trash_path_of(path@, n) == Some(t@))
            &&& rename.ensures((&path, &t), true)
            &&& remove.ensures((&t,), o)
            &&& r == removed(path, o)
        }
}

/// Removing `path` where it stands gave `r`.
pub open spec fn removed_in_place<R: FnOnce(&String) -> Result<u64, (u64, String)>>(
    path: String,
    remove: R,
    r: DeleteResult,
) -> bool {
    exists|o: Result<u64, (u64, String)>| #[trigger] remove.ensures((&path,), o) && r == removed(path, o)
}

/// The bytes that the successful deletions freed.
pub open spec fn freed_total(rs: Seq<DeleteResult>) -> int
    decreases rs.len(),
{
    if rs.len() == 0 {
        0
    } else {
        freed_total(rs.drop_last()) + match rs.last() {
            DeleteResult::Success { freed_bytes, .. } => freed_bytes as int,
            DeleteResult::Error { .. } => 0int,
        }
    }
}

proof fn lemma_freed_total_mono(rs: Seq<DeleteResult>, k: int)
    requires
        0 <= k <= rs.len(),
    ensures
        0 <= freed_total(rs.take(k)) <= freed_total(rs),
    decreases rs.len() - k,
{
    if k < rs.len() {
        lemma_freed_total_mono(rs, k + 1);
        assert(rs.take(k + 1).drop_last() =~= rs.take(k));
    } else {
        assert(rs.take(k) =~= rs);
    }
    lemma_freed_total_nonneg(rs.take(k));
}

proof fn lemma_freed_total_nonneg(rs: Seq<DeleteResult>)
    ensures
        freed_total(rs) >= 0,
    decreases rs.len(),
{
    if rs.len() > 0 {
        lemma_freed_total_nonneg(rs.drop_last());
    }
}

/// The bytes that the successful deletions freed; failed ones count nothing.
pub fn total_freed(results: &Vec<DeleteResult>) -> (t: u64)
    requires
        freed_total(results@) <= u64::MAX,
    ensures
        t == freed_total(results@),
{
    let mut t: u64 = 0;
    let mut i: usize = 0;
    while i < results.len()
        invariant
            i <= results@.len(),
            freed_total(results@) <= u64::MAX,
            t == freed_total(results@.take(i as int)),
        decreases results.len() - i,
    {
        proof {
            assert(results@.take(i + 1).drop_last() =~= results@.take(i as int));
            lemma_freed_total_mono(results@, i + 1);
        }
        match &results[i] {
            DeleteResult::Success { freed_bytes, .. } => {
                t = t + *freed_bytes;
            },
            DeleteResult::Error { .. } => {},
        }
        i = i + 1;
    }
    assert(results@.take(i as int) =~= results@);
    t
}

/// Whether the bytes that the successful deletions freed fit in a `u64`.
pub fn freed_total_fits(results: &Vec<DeleteResult>) -> (r: bool)
    ensures
        r == (freed_total(results@) <= u64::MAX),
{
    let mut t: u64 = 0;
    let mut i: usize = 0;
    while i < results.len()
        invariant
            i <= results@.len(),
            t == freed_total(results@.take(i as int)),
        decreases results.len() - i,
    {
        proof {
            assert(results@.take(i + 1).drop_last() =~= results@.take(i as int));
            lemma_freed_total_mono(results@, i + 1);
        }
        match &results[i] {
            DeleteResult::Success { freed_bytes, .. } => {
                match t.checked_add(*freed_bytes) {
                    Some(n) => {
                        t = n;
                    },
                    None => {
                        return false;
                    },
                }
            },
            DeleteResult::Error { .. } => {},
        }
        i = i + 1;
    }
    assert(results@.take(i as int) =~= results@);
    true
}

} // verus!
