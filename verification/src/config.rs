use vstd::prelude::*;

verus! {

/// A named set of directory names to look for.
pub struct Profile {
    pub targets: Vec<String>,
}

/// The target names of a profile, as character sequences.
pub open spec fn targets_view(p: Profile) -> Seq<Seq<char>> {
    p.targets@.map_values(|s: String| s@)
}

/// The profiles by name. No name occurs twice; a name stands for one profile,
/// as in a map.
pub struct Profiles {
    entries: Vec<(String, Profile)>,
}

/// The map that a list of named profiles stands for: a later entry of a name wins.
pub open spec fn entries_map(s: Seq<(String, Profile)>) -> Map<Seq<char>, Profile>
    decreases s.len(),
{
    if s.len() == 0 {
        Map::empty()
    } else {
        entries_map(s.drop_last()).insert(s.last().0@, s.last().1)
    }
}

pub open spec fn names_distinct(s: Seq<(String, Profile)>) -> bool {
    forall|i: int, j: int| 0 <= i < s.len() && 0 <= j < s.len() && i != j ==> (#[trigger] s[i]).0@ != (#[trigger] s[j]).0@
}

proof fn lemma_entries_map_index(s: Seq<(String, Profile)>, i: int)
    requires
        names_distinct(s),
        0 <= i < s.len(),
    ensures
        entries_map(s).dom().contains(s[i].0@),
        entries_map(s)[s[i].0@] == s[i].1,
    decreases s.len(),
{
    if i < s.len() - 1 {
        let d = s.drop_last();
        assert(names_distinct(d)) by {
            assert forall|a: int, b: int| 0 <= a < d.len() && 0 <= b < d.len() && a != b implies (#[trigger] d[a]).0@ != (#[trigger] d[b]).0@ by {
                assert(d[a] == s[a] && d[b] == s[b]);
            }
        }
        assert(d[i] == s[i]);
        lemma_entries_map_index(d, i);
        assert(s.last().0@ != s[i].0@) by {
            assert(s[s.len() - 1] == s.last());
        }
    }
}

proof fn lemma_entries_map_dom(s: Seq<(String, Profile)>, k: Seq<char>)
    ensures
        entries_map(s).dom().contains(k) <==> exists|i: int| 0 <= i < s.len() && (#[trigger] s[i]).0@ == k,
    decreases s.len(),
{
    if s.len() > 0 {
        let d = s.drop_last();
        lemma_entries_map_dom(d, k);
        if entries_map(s).dom().contains(k) && k != s.last().0@ {
            let i = choose|i: int| 0 <= i < d.len() && (#[trigger] d[i]).0@ == k;
            assert(s[i] == d[i]);
        }
        if exists|i: int| 0 <= i < s.len() && (#[trigger] s[i]).0@ == k {
            let i = choose|i: int| 0 <= i < s.len() && (#[trigger] s[i]).0@ == k;
            if i < s.len() - 1 {
                assert(s[i] == d[i]);
            }
        }
    }
}

impl Profiles {
    #[verifier::type_invariant]
    spec fn inv(self) -> bool {
        names_distinct(self.entries@)
    }

    /// The profiles as a map from names to profiles.
    pub closed spec fn map(self) -> Map<Seq<char>, Profile> {
        entries_map(self.entries@)
    }

    /// No profiles.
    pub fn new() -> (r: Profiles)
        ensures
            r.map() == Map::<Seq<char>, Profile>::empty(),
    {
        Profiles { entries: Vec::new() }
    }

    fn position(&self, name: &str) -> (r: Option<usize>)
        ensures
            match r {
                Some(i) => i < self.entries@.len() && self.entries@[i as int].0@ == name@,
                None => forall|i: int| 0 <= i < self.entries@.len() ==> (#[trigger] self.entries@[i]).0@ != name@,
            },
    {
        let mut i: usize = 0;
        while i < self.entries.len()
            invariant
                i <= self.entries@.len(),
                forall|j: int| 0 <= j < i ==> (#[trigger] self.entries@[j]).0@ != name@,
            decreases self.entries.len() - i,
        {
            if crate::text::str_equal(self.entries[i].0.as_str(), name) {
                return Some(i);
            }
            i = i + 1;
        }
        None
    }

    /// Whether a profile has this name.
    pub fn contains_key(&self, name: &str) -> (r: bool)
        ensures
            r == self.map().dom().contains(name@),
    {
        proof {
            lemma_entries_map_dom(self.entries@, name@);
        }
        self.position(name).is_some()
    }

    /// The profile with this name.
    pub fn get(&self, name: &str) -> (r: Option<&Profile>)
        ensures
            match r {
                Some(p) => self.map().dom().contains(name@) && *p == self.map()[name@],
                None => !self.map().dom().contains(name@),
            },
    {
        proof {
            use_type_invariant(self);
            lemma_entries_map_dom(self.entries@, name@);
        }
        match self.position(name) {
            Some(i) => {
                proof {
                    lemma_entries_map_index(self.entries@, i as int);
                }
                Some(&self.entries[i].1)
            },
            None => None,
        }
    }

    /// The number of profiles.
    pub fn len(&self) -> (n: usize)
        ensures
            n == self.map().dom().len(),
    {
        proof {
            use_type_invariant(self);
            lemma_entries_map_len(self.entries@);
        }
        self.entries.len()
    }

    /// Sets the profile of a name, replacing the one it had.
    pub fn insert(&mut self, name: String, profile: Profile)
        ensures
            final(self).map() == old(self).map().insert(name@, profile),
    {
        proof {
            use_type_invariant(&*self);
        }
        let ghost n = name;
        let ghost p = profile;
        match self.position(name.as_str()) {
            Some(i) => {
                let mut entries: Vec<(String, Profile)> = Vec::new();
                std::mem::swap(&mut entries, &mut self.entries);
                let ghost old_entries = entries@;
                let _ = entries.remove(i);
                proof {
                    lemma_remove_entry(old_entries, i as int);
                }
                entries.push((name, profile));
                proof {
                    lemma_push_entry(old_entries.remove(i as int), n, p);
                    assert(entries@ =~= old_entries.remove(i as int).push((n, p)));
                    assert(entries_map(entries@) =~= entries_map(old_entries).insert(n@, p));
                }
                self.entries = entries;
            },
            None => {
                let ghost old_entries = self.entries@;
                proof {
                    lemma_push_entry(old_entries, n, p);
                }
                let mut entries: Vec<(String, Profile)> = Vec::new();
                std::mem::swap(&mut entries, &mut self.entries);
                entries.push((name, profile));
                assert(entries@ =~= old_entries.push((n, p)));
                self.entries = entries;
            },
        }
    }

    /// Sets the profile of a name unless the name has one already.
    pub fn insert_if_absent(&mut self, name: String, profile: Profile)
        ensures
            old(self).map().dom().contains(name@) ==> final(self).map() == old(self).map(),
            !old(self).map().dom().contains(name@) ==> final(self).map() == old(self).map().insert(name@, profile),
    {
        if !self.contains_key(name.as_str()) {
            self.insert(name, profile);
        }
    }

    /// The names of the profiles, each once; a name set again moves to the end.
    pub fn names(&self) -> (r: Vec<String>)
        ensures
            forall|k: Seq<char>| self.map().dom().contains(k) <==> exists|i: int| 0 <= i < r@.len() && (#[trigger] r@[i])@ == k,
    {
        proof {
            use_type_invariant(self);
        }
        let mut r: Vec<String> = Vec::new();
        let mut i: usize = 0;
        while i < self.entries.len()
            invariant
                i <= self.entries@.len(),
                r@.len() == i,
                forall|j: int| 0 <= j < i ==> (#[trigger] r@[j])@ == self.entries@[j].0@,
            decreases self.entries.len() - i,
        {
            r.push(self.entries[i].0.clone());
            i = i + 1;
        }
        proof {
            assert forall|k: Seq<char>| self.map().dom().contains(k) <==> exists|j: int| 0 <= j < r@.len() && (#[trigger] r@[j])@ == k by {
                lemma_entries_map_dom(self.entries@, k);
                if exists|j: int| 0 <= j < r@.len() && (#[trigger] r@[j])@ == k {
                    let j = choose|j: int| 0 <= j < r@.len() && (#[trigger] r@[j])@ == k;
                    assert(self.entries@[j].0@ == k);
                }
                if self.map().dom().contains(k) {
                    let j = choose|j: int| 0 <= j < self.entries@.len() && (#[trigger] self.entries@[j]).0@ == k;
                    assert(r@[j]@ == k);
                }
            }
        }
        r
    }
}

proof fn lemma_entries_map_len(s: Seq<(String, Profile)>)
    requires
        names_distinct(s),
    ensures
        entries_map(s).dom().len() == s.len(),
        entries_map(s).dom().finite(),
    decreases s.len(),
{
    if s.len() > 0 {
        let d = s.drop_last();
        assert(names_distinct(d)) by {
            assert forall|a: int, b: int| 0 <= a < d.len() && 0 <= b < d.len() && a != b implies (#[trigger] d[a]).0@ != (#[trigger] d[b]).0@ by {
                assert(d[a] == s[a] && d[b] == s[b]);
            }
        }
        lemma_entries_map_len(d);
        lemma_entries_map_dom(d, s.last().0@);
        assert(!entries_map(d).dom().contains(s.last().0@)) by {
            if entries_map(d).dom().contains(s.last().0@) {
                let i = choose|i: int| 0 <= i < d.len() && (#[trigger] d[i]).0@ == s.last().0@;
                assert(s[i] == d[i]);
                assert(s[s.len() - 1] == s.last());
            }
        }
    }
}

proof fn lemma_push_entry(s: Seq<(String, Profile)>, n: String, p: Profile)
    requires
        names_distinct(s),
        forall|i: int| 0 <= i < s.len() ==> (#[trigger] s[i]).0@ != n@,
    ensures
        names_distinct(s.push((n, p))),
        entries_map(s.push((n, p))) == entries_map(s).insert(n@, p),
{
    let t = s.push((n, p));
    assert(t.drop_last() =~= s);
    assert forall|a: int, b: int| 0 <= a < t.len() && 0 <= b < t.len() && a != b implies (#[trigger] t[a]).0@ != (#[trigger] t[b]).0@ by {
        if a < s.len() && b < s.len() {
            assert(t[a] == s[a] && t[b] == s[b]);
        } else if a < s.len() {
            assert(t[a] == s[a]);
        } else {
            assert(t[b] == s[b]);
        }
    }
}

proof fn lemma_remove_entry(s: Seq<(String, Profile)>, i: int)
    requires
        names_distinct(s),
        0 <= i < s.len(),
    ensures
        names_distinct(s.remove(i)),
        forall|j: int| 0 <= j < s.remove(i).len() ==> (#[trigger] s.remove(i)[j]).0@ != s[i].0@,
        entries_map(s.remove(i)) == entries_map(s).remove(s[i].0@),
    decreases s.len(),
{
    let t = s.remove(i);
    assert forall|a: int, b: int| 0 <= a < t.len() && 0 <= b < t.len() && a != b implies (#[trigger] t[a]).0@ != (#[trigger] t[b]).0@ by {
        let a2 = if a < i { a } else { a + 1 };
        let b2 = if b < i { b } else { b + 1 };
        assert(t[a] == s[a2] && t[b] == s[b2]);
    }
    assert forall|j: int| 0 <= j < t.len() implies (#[trigger] t[j]).0@ != s[i].0@ by {
        let j2 = if j < i { j } else { j + 1 };
        assert(t[j] == s[j2]);
    }
    if i == s.len() - 1 {
        assert(t =~= s.drop_last());
        let d = s.drop_last();
        lemma_entries_map_dom(d, s[i].0@);
        assert(!entries_map(d).dom().contains(s[i].0@));
        assert(entries_map(s).remove(s[i].0@) =~= entries_map(d));
    } else {
        let d = s.drop_last();
        assert(names_distinct(d)) by {
            assert forall|a: int, b: int| 0 <= a < d.len() && 0 <= b < d.len() && a != b implies (#[trigger] d[a]).0@ != (#[trigger] d[b]).0@ by {
                assert(d[a] == s[a] && d[b] == s[b]);
            }
        }
        assert(d[i] == s[i]);
        lemma_remove_entry(d, i);
        assert(t.drop_last() =~= d.remove(i));
        assert(t.last() == s.last());
        assert(s.last().0@ != s[i].0@) by {
            assert(s[s.len() - 1] == s.last());
        }
        assert(entries_map(t) =~= entries_map(d).remove(s[i].0@).insert(s.last().0@, s.last().1));
        assert(entries_map(s).remove(s[i].0@) =~= entries_map(d).insert(s.last().0@, s.last().1).remove(s[i].0@));
    }
}


/// Strings holding the given texts, in order.
pub fn strings_of(items: &[&str]) -> (r: Vec<String>)
    ensures
        r@.map_values(|s: String| s@) == items@.map_values(|s: &str| s@),
{
    let mut r: Vec<String> = Vec::new();
    let mut i: usize = 0;
    while i < items.len()
        invariant
            i <= items@.len(),
            r@.map_values(|s: String| s@) =~= items@.take(i as int).map_values(|s: &str| s@),
        decreases items.len() - i,
    {
        let s = crate::text::string_of(items[i]);
        let ghost before = r@;
        r.push(s);
        assert(r@.map_values(|s: String| s@) =~= before.map_values(|s: String| s@).push(s@));
        assert(items@.take(i + 1).map_values(|s: &str| s@) =~= items@.take(i as int).map_values(|s: &str| s@).push(items@[i as int]@));
        i = i + 1;
    }
    assert(items@.take(i as int) =~= items@);
    r
}

/// The directory names of the built-in profiles.
pub open spec fn builtin_targets(name: Seq<char>) -> Seq<Seq<char>> {
    if name == "node"@ {
        seq!["node_modules"@]
    } else if name == "rust"@ {
        seq!["target"@]
    } else if name == "python"@ {
        seq!["__pycache__"@, ".venv"@, "venv"@, ".mypy_cache"@, ".ruff_cache"@, ".pytest_cache"@]
    } else if name == "flutter"@ {
        seq!["build"@, ".dart_tool"@, "ios/Pods"@, "android/build"@, "android/.gradle"@]
    } else if name == "java"@ {
        seq!["build"@, ".gradle"@, "out"@, "target"@]
    } else {
        seq![
            "node_modules"@, "target"@, "__pycache__"@, ".venv"@, "venv"@, "dist"@, ".next"@,
            ".nuxt"@, ".output"@, ".turbo"@, ".svelte-kit"@, "build"@, ".gradle"@,
            ".dart_tool"@, ".mypy_cache"@, ".ruff_cache"@, ".pytest_cache"@, "out"@, "ios/Pods"@,
            "android/build"@, "android/.gradle"@,
        ]
    }
}

/// The names of the built-in profiles.
pub open spec fn builtin_names() -> Set<Seq<char>> {
    set!["node"@, "rust"@, "python"@, "flutter"@, "java"@, "all"@]
}

fn builtin(name: &str, targets: &[&str]) -> (r: (String, Profile))
    ensures
        r.0@ == name@,
        targets_view(r.1) == targets@.map_values(|s: &str| s@),
{
    (crate::text::string_of(name), Profile { targets: strings_of(targets) })
}

/// The profiles that need no config file: node, rust, python, flutter, java and all.
pub fn builtin_profiles() -> (r: Profiles)
    ensures
        r.map().dom() == builtin_names(),
        forall|k: Seq<char>| #[trigger] r.map().dom().contains(k) ==> targets_view(r.map()[k]) == builtin_targets(k),
{
    proof {
        reveal_strlit("node");
        reveal_strlit("rust");
        reveal_strlit("python");
        reveal_strlit("flutter");
        reveal_strlit("java");
        reveal_strlit("all");
        assert("rust"@ != "node"@) by {
            assert("rust"@[0] != "node"@[0]);
        }
        assert("python"@ != "node"@ && "python"@ != "rust"@) by {
            assert("python"@.len() != "node"@.len());
        }
        assert("flutter"@ != "node"@ && "flutter"@ != "rust"@ && "flutter"@ != "python"@) by {
            assert("flutter"@.len() != "node"@.len());
            assert("flutter"@[0] != "python"@[0]);
        }
        assert("java"@ != "node"@ && "java"@ != "rust"@ && "java"@ != "python"@ && "java"@ != "flutter"@) by {
            assert("java"@[0] != "node"@[0]);
            assert("java"@[0] != "rust"@[0]);
        }
        assert("all"@ != "node"@ && "all"@ != "rust"@ && "all"@ != "python"@ && "all"@ != "flutter"@
            && "all"@ != "java"@) by {
            assert("all"@.len() != "node"@.len());
            assert("all"@.len() != "rust"@.len());
            assert("all"@.len() != "python"@.len());
            assert("all"@.len() != "flutter"@.len());
            assert("all"@.len() != "java"@.len());
        }
    }
    let mut m = Profiles::new();
    let ghost before = m.map();
    let (n, p) = builtin("node", &["node_modules"]);
    assert(targets_view(p) =~= builtin_targets("node"@));
    m.insert(n, p);
    let ghost before = m.map();
    let (n, p) = builtin("rust", &["target"]);
    assert(targets_view(p) =~= builtin_targets("rust"@));
    m.insert(n, p);
    let ghost before = m.map();
    let (n, p) = builtin("python", &["__pycache__", ".venv", "venv", ".mypy_cache", ".ruff_cache", ".pytest_cache"]);
    assert(targets_view(p) =~= builtin_targets("python"@));
    m.insert(n, p);
    let ghost before = m.map();
    let (n, p) = builtin("flutter", &["build", ".dart_tool", "ios/Pods", "android/build", "android/.gradle"]);
    assert(targets_view(p) =~= builtin_targets("flutter"@));
    m.insert(n, p);
    let ghost before = m.map();
    let (n, p) = builtin("java", &["build", ".gradle", "out", "target"]);
    assert(targets_view(p) =~= builtin_targets("java"@));
    m.insert(n, p);
    let (n, p) = builtin(
        "all",
        &[
            "node_modules",
            "target",
            "__pycache__",
            ".venv",
            "venv",
            "dist",
            ".next",
            ".nuxt",
            ".output",
            ".turbo",
            ".svelte-kit",
            "build",
            ".gradle",
            ".dart_tool",
            ".mypy_cache",
            ".ruff_cache",
            ".pytest_cache",
            "out",
            "ios/Pods",
            "android/build",
            "android/.gradle",
        ],
    );
    assert(targets_view(p) =~= builtin_targets("all"@));
    m.insert(n, p);
    assert(m.map().dom() =~= builtin_names());
    m
}


/// The settings section of the config file.
pub struct Settings {
    pub default_sort: String,
    pub size_unit: String,
    pub color: String,
    pub check_updates: bool,
    pub threads: usize,
    pub exclude_hidden: bool,
}

/// The sort order used when the config file names none: by path.
pub fn default_sort() -> (s: String)
    ensures
        s@ == "path"@,
{
    crate::text::string_of("path")
}

/// The size unit used when the config file names none: chosen by size.
pub fn default_size_unit() -> (s: String)
    ensures
        s@ == "auto"@,
{
    crate::text::string_of("auto")
}

/// The highlight colour used when the config file names none.
pub fn default_color() -> (s: String)
    ensures
        s@ == "cyan"@,
{
    crate::text::string_of("cyan")
}

/// Update checks are on unless the config file turns them off.
pub fn default_true() -> (b: bool)
    ensures
        b,
{
    true
}

impl Default for Settings {
    fn default() -> (s: Self)
        ensures
            s.default_sort@ == "path"@,
            s.size_unit@ == "auto"@,
            s.color@ == "cyan"@,
            s.check_updates,
            s.threads == 0,
            !s.exclude_hidden,
    {
        Settings {
            default_sort: default_sort(),
            size_unit: default_size_unit(),
            color: default_color(),
            check_updates: true,
            threads: 0,
            exclude_hidden: false,
        }
    }
}

/// Directories that the scan never enters.
pub struct ExcludeConfig {
    pub directories: Vec<String>,
}

impl Default for ExcludeConfig {
    fn default() -> (e: Self)
        ensures
            e.directories@.len() == 0,
    {
        ExcludeConfig { directories: Vec::new() }
    }
}

/// The configuration loaded from `.hakairc`.
pub struct HakaiConfig {
    pub settings: Settings,
    pub profiles: Profiles,
    pub exclude: ExcludeConfig,
}

impl Default for HakaiConfig {
    fn default() -> (c: Self)
        ensures
            c.settings.default_sort@ == "path"@,
            c.settings.size_unit@ == "auto"@,
            c.settings.color@ == "cyan"@,
            c.settings.check_updates,
            c.settings.threads == 0,
            !c.settings.exclude_hidden,
            c.profiles.map() == Map::<Seq<char>, Profile>::empty(),
            c.exclude.directories@.len() == 0,
    {
        HakaiConfig { settings: Settings::default(), profiles: Profiles::new(), exclude: ExcludeConfig::default() }
    }
}

/// The configuration used when no config file can be read: the defaults, with the
/// built-in profiles.
pub fn default_config() -> (c: HakaiConfig)
    ensures
        c.settings.default_sort@ == "path"@,
        c.settings.size_unit@ == "auto"@,
        c.settings.color@ == "cyan"@,
        c.settings.check_updates,
        c.settings.threads == 0,
        !c.settings.exclude_hidden,
        c.exclude.directories@.len() == 0,
        c.profiles.map().dom() == builtin_names(),
        forall|k: Seq<char>| #[trigger] c.profiles.map().dom().contains(k) ==> targets_view(c.profiles.map()[k]) == builtin_targets(k),
{
    let mut c = HakaiConfig::default();
    c.profiles = builtin_profiles();
    c
}

/// Adds the built-in profiles whose names the user's profiles do not have: the
/// user's profiles take precedence.
pub fn merge_builtin_profiles(profiles: &mut Profiles)
    ensures
        final(profiles).map().dom() == old(profiles).map().dom().union(builtin_names()),
        forall|k: Seq<char>| #[trigger] old(profiles).map().dom().contains(k) ==> final(profiles).map()[k] == old(profiles).map()[k],
        forall|k: Seq<char>|
            !old(profiles).map().dom().contains(k) && #[trigger] builtin_names().contains(k) ==> targets_view(
                final(profiles).map()[k],
            ) == builtin_targets(k),
{
    let builtins = builtin_profiles();
    let ghost bm = builtins.map();
    proof {
        use_type_invariant(&builtins);
    }
    let Profiles { entries } = builtins;
    let ghost es = entries@;
    let mut src = entries;
    let ghost mut k: int = 0;
    assert(es.skip(0) =~= es);
    assert(es.take(0) =~= Seq::<(String, Profile)>::empty());
    while src.len() > 0
        invariant
            names_distinct(es),
            entries_map(es) == bm,
            bm.dom() == builtin_names(),
            forall|n: Seq<char>| #[trigger] bm.dom().contains(n) ==> targets_view(bm[n]) == builtin_targets(n),
            0 <= k <= es.len(),
            src@ == es.skip(k),
            profiles.map().dom() == old(profiles).map().dom().union(entries_map(es.take(k)).dom()),
            forall|n: Seq<char>| #[trigger] old(profiles).map().dom().contains(n) ==> profiles.map()[n] == old(profiles).map()[n],
            forall|n: Seq<char>|
                !old(profiles).map().dom().contains(n) && #[trigger] entries_map(es.take(k)).dom().contains(n) ==> profiles.map()[n]
                    == entries_map(es.take(k))[n],
        decreases src@.len(),
    {
        let (name, profile) = src.remove(0);
        proof {
            assert(es.take(k + 1).drop_last() =~= es.take(k));
            assert(es.take(k + 1).last() == es[k]);
            assert(es[k] == (name, profile));
            assert(es.skip(k + 1) =~= es.skip(k).drop_first());
            lemma_entries_map_dom(es.take(k), name@);
            assert(!entries_map(es.take(k)).dom().contains(name@)) by {
                if entries_map(es.take(k)).dom().contains(name@) {
                    let i = choose|i: int| 0 <= i < es.take(k).len() && (#[trigger] es.take(k)[i]).0@ == name@;
                    assert(es.take(k)[i] == es[i]);
                }
            }
        }
        let ghost pre = profiles.map();
        let ghost nm = name;
        let ghost pf = profile;
        profiles.insert_if_absent(name, profile);
        proof {
            let tk1 = es.take(k + 1);
            assert(entries_map(tk1) == entries_map(es.take(k)).insert(nm@, pf));
            assert forall|n: Seq<char>|
                !old(profiles).map().dom().contains(n) && #[trigger] entries_map(tk1).dom().contains(n) implies profiles.map()[n]
                    == entries_map(tk1)[n] by {
                if n == nm@ {
                    assert(!pre.dom().contains(n));
                }
            }
            k = k + 1;
            assert(profiles.map().dom() =~= old(profiles).map().dom().union(entries_map(es.take(k)).dom()));
        }
    }
    proof {
        assert(es.take(k) =~= es);
        assert(final(profiles).map().dom() =~= old(profiles).map().dom().union(builtin_names()));
    }
}

/// Asking for a profile that has no definition.
pub struct UnknownProfile {
    pub name: String,
}

fn clone_strings(v: &Vec<String>) -> (r: Vec<String>)
    ensures
        r@ == v@,
{
    let mut r: Vec<String> = Vec::new();
    let mut i: usize = 0;
    while i < v.len()
        invariant
            i <= v@.len(),
            r@ =~= v@.take(i as int),
        decreases v.len() - i,
    {
        r.push(v[i].clone());
        assert(v@.take(i + 1) =~= v@.take(i as int).push(v@[i as int]));
        i = i + 1;
    }
    assert(v@.take(i as int) =~= v@);
    r
}

/// The directory names to look for: those of the named profile (the config's
/// profiles first, then the built-in ones), else the names given, else
/// `node_modules`.
pub fn resolve_targets(
    config_profiles: &Profiles,
    profile: Option<&str>,
    targets: Option<&Vec<String>>,
) -> (r: Result<Vec<String>, UnknownProfile>)
    ensures
        match profile {
            Some(name) => match r {
                Ok(t) => if config_profiles.map().dom().contains(name@) {
                    t@ == config_profiles.map()[name@].targets@
                } else {
                    builtin_names().contains(name@) && t@.map_values(|s: String| s@) == builtin_targets(name@)
                },
                Err(e) => e.name@ == name@ && !config_profiles.map().dom().contains(name@) && !builtin_names().contains(name@),
            },
            None => match targets {
                Some(t) => r matches Ok(v) && v@ == t@,
                None => r matches Ok(v) && v@.map_values(|s: String| s@) == seq!["node_modules"@],
            },
        },
{
    match profile {
        Some(name) => {
            match config_profiles.get(name) {
                Some(p) => Ok(clone_strings(&p.targets)),
                None => {
                    let builtins = builtin_profiles();
                    match builtins.get(name) {
                        Some(p) => Ok(clone_strings(&p.targets)),
                        None => Err(UnknownProfile { name: crate::text::string_of(name) }),
                    }
                },
            }
        },
        None => match targets {
            Some(t) => Ok(clone_strings(t)),
            None => {
                let mut v: Vec<String> = Vec::new();
                v.push(crate::text::string_of("node_modules"));
                assert(v@.map_values(|s: String| s@) =~= seq!["node_modules"@]);
                Ok(v)
            },
        },
    }
}

/// The web build directories that the `all` profile holds beyond the other
/// built-in profiles.
pub open spec fn web_extras() -> Seq<Seq<char>> {
    seq!["dist"@, ".next"@, ".nuxt"@, ".turbo"@, ".svelte-kit"@]
}

/// The `all` profile holds every target of the other built-in profiles, and the
/// web build directories `dist`, `.next`, `.nuxt`, `.turbo` and `.svelte-kit`.
pub proof fn law_all_profile_covers_the_others(name: Seq<char>, t: Seq<char>)
    requires
        builtin_names().contains(name),
        builtin_targets(name).contains(t) || (name == "all"@ && web_extras().contains(t)),
    ensures
        builtin_targets("all"@).contains(t),
{
    reveal_strlit("node");
    reveal_strlit("rust");
    reveal_strlit("python");
    reveal_strlit("flutter");
    reveal_strlit("java");
    reveal_strlit("all");
    let all = builtin_targets("all"@);
    assert("all"@ != "node"@ && "all"@ != "rust"@ && "all"@ != "python"@ && "all"@ != "flutter"@
        && "all"@ != "java"@) by {
        assert("all"@.len() != "node"@.len());
        assert("all"@.len() != "rust"@.len());
        assert("all"@.len() != "python"@.len());
        assert("all"@.len() != "flutter"@.len());
        assert("all"@.len() != "java"@.len());
    }
    assert(all[0] == "node_modules"@ && all[1] == "target"@ && all[2] == "__pycache__"@ && all[3] == ".venv"@
        && all[4] == "venv"@ && all[5] == "dist"@ && all[6] == ".next"@ && all[7] == ".nuxt"@ && all[8]
        == ".output"@ && all[9] == ".turbo"@ && all[10] == ".svelte-kit"@ && all[11] == "build"@ && all[12]
        == ".gradle"@ && all[13] == ".dart_tool"@ && all[14] == ".mypy_cache"@ && all[15] == ".ruff_cache"@
        && all[16] == ".pytest_cache"@ && all[17] == "out"@ && all[18] == "ios/Pods"@ && all[19]
        == "android/build"@ && all[20] == "android/.gradle"@);
    if name == "all"@ && web_extras().contains(t) {
        let i = choose|i: int| 0 <= i < web_extras().len() && web_extras()[i] == t;
        let j: int = if i == 0 { 5 } else if i == 1 { 6 } else if i == 2 { 7 } else if i == 3 { 9 } else { 10 };
        assert(all[j] == t);
    } else {
        let targets = builtin_targets(name);
        let i = choose|i: int| 0 <= i < targets.len() && targets[i] == t;
        let j: int = if name == "node"@ {
            0
        } else if name == "rust"@ {
            1
        } else if name == "python"@ {
            if i == 0 { 2 } else if i == 1 { 3 } else if i == 2 { 4 } else if i == 3 { 14 } else if i == 4 { 15 } else { 16 }
        } else if name == "flutter"@ {
            if i == 0 { 11 } else if i == 1 { 13 } else if i == 2 { 18 } else if i == 3 { 19 } else { 20 }
        } else if name == "java"@ {
            if i == 0 { 11 } else if i == 1 { 12 } else if i == 2 { 17 } else { 1 }
        } else {
            i
        };
        assert(all[j] == t);
    }
}

/// The built-in profiles look for the directories their documentation lists.
pub proof fn law_builtin_profiles_as_documented()
    ensures
        builtin_targets("node"@) == seq!["node_modules"@],
        builtin_targets("rust"@) == seq!["target"@],
        builtin_targets("python"@) == seq![
            "__pycache__"@,
            ".venv"@,
            "venv"@,
            ".mypy_cache"@,
            ".ruff_cache"@,
            ".pytest_cache"@,
        ],
        builtin_targets("flutter"@) == seq![
            "build"@,
            ".dart_tool"@,
            "ios/Pods"@,
            "android/build"@,
            "android/.gradle"@,
        ],
        builtin_targets("java"@) == seq!["build"@, ".gradle"@, "out"@, "target"@],
        builtin_names() == set!["node"@, "rust"@, "python"@, "flutter"@, "java"@, "all"@],
{
    reveal_strlit("node");
    reveal_strlit("rust");
    reveal_strlit("python");
    reveal_strlit("flutter");
    reveal_strlit("java");
    assert("rust"@ != "node"@) by {
        assert("rust"@[0] != "node"@[0]);
    }
    assert("python"@ != "node"@ && "python"@ != "rust"@) by {
        assert("python"@.len() != "node"@.len());
    }
    assert("flutter"@ != "node"@ && "flutter"@ != "rust"@ && "flutter"@ != "python"@) by {
        assert("flutter"@.len() != "node"@.len());
        assert("flutter"@[0] != "python"@[0]);
    }
    assert("java"@ != "node"@ && "java"@ != "rust"@ && "java"@ != "python"@ && "java"@ != "flutter"@) by {
        assert("java"@[0] != "node"@[0]);
        assert("java"@[0] != "rust"@[0]);
    }
}

} // verus!
