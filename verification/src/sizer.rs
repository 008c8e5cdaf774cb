use vstd::prelude::*;

verus! {

/// What a walk of a directory read of one entry: whether it is a regular file, its
/// length, and its modification time in milliseconds since the Unix epoch where
/// the system gave one.
#[derive(Debug, Clone, Copy, PartialEq, Eq, Structural)]
pub struct EntryStat {
    pub is_file: bool,
    pub len: u64,
    pub modified_ms: Option<u64>,
}

/// The bytes of the regular files among `s`.
pub open spec fn file_bytes(s: Seq<EntryStat>) -> int
    decreases s.len(),
{
    if s.len() == 0 {
        0
    } else {
        file_bytes(s.drop_last()) + if s.last().is_file {
            s.last().len as int
        } else {
            0
        }
    }
}

/// The newest modification time among the regular files of `s`; 0 where none has one.
pub open spec fn newest_file_ms(s: Seq<EntryStat>) -> u64
    decreases s.len(),
{
    if s.len() == 0 {
        0
    } else {
        let rest = newest_file_ms(s.drop_last());
        let e = s.last();
        if e.is_file && e.modified_ms is Some && e.modified_ms->0 > rest {
            e.modified_ms->0
        } else {
            rest
        }
    }
}

/// The size counter is a `u64` that wraps: it holds the total modulo 2^64.
pub open spec fn wrapped(total: int) -> u64 {
    (total % 0x1_0000_0000_0000_0000int) as u64
}

proof fn lemma_file_bytes_nonneg(s: Seq<EntryStat>)
    ensures
        file_bytes(s) >= 0,
    decreases s.len(),
{
    if s.len() > 0 {
        lemma_file_bytes_nonneg(s.drop_last());
    }
}

proof fn lemma_wrapped_step(total: int, len: u64)
    requires
        total >= 0,
    ensures
        vstd::wrapping::u64_specs::wrapping_add(wrapped(total), len) == wrapped(total + len),
{
    let m = 0x1_0000_0000_0000_0000int;
    let a = total % m;
    vstd::arithmetic::div_mod::lemma_add_mod_noop(total, len as int, m);
    vstd::arithmetic::div_mod::lemma_mod_bound(total, m);
    if a + len < m {
        vstd::arithmetic::div_mod::lemma_small_mod((a + len) as nat, m as nat);
    } else {
        vstd::arithmetic::div_mod::lemma_mod_sub_multiples_vanish((a + len) as int, m);
        vstd::arithmetic::div_mod::lemma_small_mod((a + len - m) as nat, m as nat);
    }
}

/// The total size of the regular files that a walk met (modulo 2^64, as the
/// counter wraps) and the newest modification time among them (0 where none).
pub fn calculate_size_and_mtime(entries: &Vec<EntryStat>) -> (r: (u64, u64))
    ensures
        r.0 == wrapped(file_bytes(entries@)),
        r.1 == newest_file_ms(entries@),
{
    let mut total: u64 = 0;
    let mut newest: u64 = 0;
    let mut i: usize = 0;
    while i < entries.len()
        invariant
            i <= entries@.len(),
            total == wrapped(file_bytes(entries@.take(i as int))),
            newest == newest_file_ms(entries@.take(i as int)),
        decreases entries.len() - i,
    {
        let e = entries[i];
        proof {
            assert(entries@.take(i + 1).drop_last() =~= entries@.take(i as int));
            lemma_file_bytes_nonneg(entries@.take(i as int));
        }
        if e.is_file {
            proof {
                lemma_wrapped_step(file_bytes(entries@.take(i as int)), e.len);
            }
            total = total.wrapping_add(e.len);
            match e.modified_ms {
                Some(ms) => {
                    if ms > newest {
                        newest = ms;
                    }
                },
                None => {},
            }
        }
        i = i + 1;
    }
    assert(entries@.take(i as int) =~= entries@);
    (total, newest)
}

/// The total size of the regular files that a walk met (see
/// `calculate_size_and_mtime`).
pub fn calculate_size(entries: &Vec<EntryStat>) -> (r: u64)
    ensures
        r == wrapped(file_bytes(entries@)),
{
    calculate_size_and_mtime(entries).0
}

} // verus!
