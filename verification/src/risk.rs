use vstd::prelude::*;

use crate::text::eq_ignore_ascii_case;

verus! {

/// How risky it is to delete a directory.
#[derive(Debug, Clone, Copy, PartialEq, Eq, Structural)]
pub enum RiskLevel {
    Low,
    Medium,
    High,
}

/// The name of a risk level in lower case, as JSON output writes it.
pub open spec fn risk_name(r: RiskLevel) -> Seq<char> {
    match r {
        RiskLevel::Low => "low"@,
        RiskLevel::Medium => "medium"@,
        RiskLevel::High => "high"@,
    }
}

impl RiskLevel {
    /// The name of the level in lower case.
    pub fn as_str(self) -> (s: &'static str)
        ensures
            s@ == risk_name(self),
    {
        match self {
            RiskLevel::Low => "low",
            RiskLevel::Medium => "medium",
            RiskLevel::High => "high",
        }
    }
}

/// What the risk analysis says of a directory.
#[derive(Debug, Clone, Copy, PartialEq, Eq, Structural)]
pub struct RiskResult {
    pub is_dead: bool,
    pub risk_level: RiskLevel,
}

/// `h` starts with `n`, ASCII letters taken without case.
pub open spec fn prefix_match(h: Seq<char>, n: Seq<char>) -> bool {
    h.len() >= n.len() && forall|i: int| 0 <= i < n.len() ==> eq_ignore_ascii_case(#[trigger] h[i], n[i])
}

/// `n` occurs in `h` at `k`, ASCII letters taken without case.
pub open spec fn matches_at(h: Seq<char>, n: Seq<char>, k: int) -> bool {
    0 <= k && k + n.len() <= h.len() && forall|i: int| 0 <= i < n.len() ==> eq_ignore_ascii_case(#[trigger] h[k + i], n[i])
}

/// A non-empty `n` occurs somewhere in `h`, ASCII letters taken without case.
pub open spec fn substring_match(h: Seq<char>, n: Seq<char>) -> bool {
    n.len() > 0 && exists|k: int| #[trigger] matches_at(h, n, k)
}

/// The risk level of a path on Unix: system locations are high, global package
/// manager locations and `/usr/local` medium, anything else low.
pub open spec fn risk_level_of(p: Seq<char>) -> RiskLevel {
    if prefix_match(p, "/usr/local/lib"@) || prefix_match(p, "/usr/lib"@) || prefix_match(p, "/opt/"@)
        || prefix_match(p, "/System/"@) {
        RiskLevel::High
    } else if substring_match(p, ".nvm"@) || substring_match(p, ".volta"@) || substring_match(p, ".pnpm-store"@)
        || substring_match(p, "nvm"@) {
        RiskLevel::Medium
    } else if prefix_match(p, "/usr/local/"@) {
        RiskLevel::Medium
    } else {
        RiskLevel::Low
    }
}

/// The risk level of a path on Windows: `Program Files`, `Windows` and the global
/// npm directory are high, global package manager locations medium.
pub open spec fn risk_level_of_windows(p: Seq<char>) -> RiskLevel {
    if prefix_match(p, "c:\\program files"@) || prefix_match(p, "c:\\program files (x86)"@) || prefix_match(
        p,
        "c:\\windows"@,
    ) || substring_match(p, "\\appdata\\roaming\\npm"@) {
        RiskLevel::High
    } else if substring_match(p, ".nvm"@) || substring_match(p, ".volta"@) || substring_match(p, ".pnpm-store"@)
        || substring_match(p, "nvm"@) {
        RiskLevel::Medium
    } else {
        RiskLevel::Low
    }
}

fn prefix_match_exec(h: &Vec<char>, needle: &str) -> (r: bool)
    ensures
        r == prefix_match(h@, needle@),
{
    let n = crate::text::chars_of(needle);
    if h.len() < n.len() {
        return false;
    }
    let mut i: usize = 0;
    while i < n.len()
        invariant
            n@ == needle@,
            n@.len() <= h@.len(),
            i <= n@.len(),
            forall|j: int| 0 <= j < i ==> eq_ignore_ascii_case(#[trigger] h@[j], n@[j]),
        decreases n.len() - i,
    {
        if crate::text::ascii_lower_exec(h[i]) != crate::text::ascii_lower_exec(n[i]) {
            return false;
        }
        i = i + 1;
    }
    true
}

fn matches_at_exec(h: &Vec<char>, n: &Vec<char>, k: usize) -> (r: bool)
    requires
        k + n@.len() <= h@.len(),
    ensures
        r == matches_at(h@, n@, k as int),
{
    let mut i: usize = 0;
    while i < n.len()
        invariant
            k + n@.len() <= h@.len(),
            i <= n@.len(),
            forall|j: int| 0 <= j < i ==> eq_ignore_ascii_case(#[trigger] h@[k + j], n@[j]),
        decreases n.len() - i,
    {
        assert(k + i < h.len());
        if crate::text::ascii_lower_exec(h[k + i]) != crate::text::ascii_lower_exec(n[i]) {
            return false;
        }
        i = i + 1;
    }
    true
}

fn substring_match_exec(h: &Vec<char>, needle: &str) -> (r: bool)
    ensures
        r == substring_match(h@, needle@),
{
    let n = crate::text::chars_of(needle);
    if n.len() == 0 || n.len() > h.len() {
        proof {
            if n.len() > h.len() {
                assert forall|k: int| !matches_at(h@, n@, k) by {}
            }
        }
        return false;
    }
    let last = h.len() - n.len();
    let mut k: usize = 0;
    while k <= last
        invariant
            n@ == needle@,
            n@.len() > 0,
            last + n@.len() == h@.len(),
            forall|j: int| 0 <= j < k ==> !matches_at(h@, n@, j),
        decreases last + 1 - k,
    {
        if matches_at_exec(h, &n, k) {
            assert(matches_at(h@, n@, k as int));
            return true;
        }
        if k == last {
            assert forall|j: int| !matches_at(h@, n@, j) by {
                if matches_at(h@, n@, j) {
                    assert(j <= last);
                }
            }
            return false;
        }
        k = k + 1;
    }
    false
}

/// The risk level of a path on Unix (see `risk_level_of`).
pub fn determine_risk_level(path: &str) -> (r: RiskLevel)
    ensures
        r == risk_level_of(path@),
{
    let p = crate::text::chars_of(path);
    if prefix_match_exec(&p, "/usr/local/lib") || prefix_match_exec(&p, "/usr/lib") || prefix_match_exec(&p, "/opt/")
        || prefix_match_exec(&p, "/System/") {
        return RiskLevel::High;
    }
    if substring_match_exec(&p, ".nvm") || substring_match_exec(&p, ".volta") || substring_match_exec(&p, ".pnpm-store")
        || substring_match_exec(&p, "nvm") {
        return RiskLevel::Medium;
    }
    if prefix_match_exec(&p, "/usr/local/") {
        return RiskLevel::Medium;
    }
    RiskLevel::Low
}

/// The risk level of a path on Windows (see `risk_level_of_windows`).
pub fn determine_risk_level_windows(path: &str) -> (r: RiskLevel)
    ensures
        r == risk_level_of_windows(path@),
{
    let p = crate::text::chars_of(path);
    if prefix_match_exec(&p, "c:\\program files") || prefix_match_exec(&p, "c:\\program files (x86)")
        || prefix_match_exec(&p, "c:\\windows") || substring_match_exec(&p, "\\appdata\\roaming\\npm") {
        return RiskLevel::High;
    }
    if substring_match_exec(&p, ".nvm") || substring_match_exec(&p, ".volta") || substring_match_exec(&p, ".pnpm-store")
        || substring_match_exec(&p, "nvm") {
        return RiskLevel::Medium;
    }
    RiskLevel::Low
}

/// Where the risk analysis looks for the `package.json` of a directory: in its
/// parent, or nowhere when it has no parent.
pub open spec fn package_json_location(p: Seq<char>) -> Option<Seq<char>> {
    match crate::paths::parent_of(p) {
        Some(q) => Some(crate::paths::joined(q, "package.json"@)),
        None => None,
    }
}

/// The `package.json` that tells whether a `node_modules` still has a project.
pub fn package_json_path(path: &str) -> (r: Option<String>)
    ensures
        match r {
            Some(s) => package_json_location(path@) == Some(s@),
            None => package_json_location(path@).is_none(),
        },
{
    match crate::paths::parent_path(path) {
        Some(parent) => Some(crate::paths::join_path(parent.as_str(), "package.json")),
        None => None,
    }
}

/// The risk of a directory named `target_name` on Unix: a `node_modules` is dead
/// when no `package.json` exists at `package_json_path` (given by the caller, false
/// when there is no such path); the level goes by the path.
pub fn analyze_risk(path: &str, target_name: &str, package_json_exists: bool) -> (r: RiskResult)
    ensures
        r.is_dead == (target_name@ == "node_modules"@ && !package_json_exists),
        r.risk_level == risk_level_of(path@),
{
    let is_dead = if crate::text::str_equal(target_name, "node_modules") {
        !package_json_exists
    } else {
        false
    };
    RiskResult { is_dead, risk_level: determine_risk_level(path) }
}

} // verus!
