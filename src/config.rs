//! Which executable opens a file of a given version: the compatibility rule
//! and the lookup through the configured executables and default.
use vstd::prelude::*;
use crate::text::chars_of;
use crate::version_checker::{raw_of_canonical, BlenderVersion};

verus! {

/// `a` sorts at or after `b` in dictionary order of characters.
pub open spec fn lex_ge(a: Seq<char>, b: Seq<char>) -> bool
    decreases b.len(),
{
    if b.len() == 0 {
        true
    } else if a.len() == 0 {
        false
    } else if a[0] != b[0] {
        (a[0] as u32) > (b[0] as u32)
    } else {
        lex_ge(a.drop_first(), b.drop_first())
    }
}

/// An executable of version `exec_version` opens files of `file_version`:
/// its code sorts at or after the file's code. Patch parts play no role.
pub open spec fn opens(exec_version: Seq<char>, file_version: Seq<char>) -> bool {
    lex_ge(raw_of_canonical(exec_version), raw_of_canonical(file_version))
}

proof fn lemma_lex_ge_reflexive(a: Seq<char>)
    ensures
        lex_ge(a, a),
    decreases a.len(),
{
    if a.len() > 0 {
        lemma_lex_ge_reflexive(a.drop_first());
    }
}

fn lex_ge_from(a: &Vec<char>, b: &Vec<char>, i: usize) -> (r: bool)
    requires
        i <= a@.len(),
        i <= b@.len(),
    ensures
        r == lex_ge(a@.skip(i as int), b@.skip(i as int)),
    decreases b@.len() - i,
{
    if i == b.len() {
        return true;
    }
    if i == a.len() {
        return false;
    }
    if a[i] != b[i] {
        return (a[i] as u32) > (b[i] as u32);
    }
    assert(a@.skip(i as int).drop_first() =~= a@.skip(i + 1));
    assert(b@.skip(i as int).drop_first() =~= b@.skip(i + 1));
    lex_ge_from(a, b, i + 1)
}

/// Whether an executable of version `exec_version` can open a file saved by
/// version `file_version`: newer executables open older files, never the
/// other way round.
pub fn can_open(exec_version: &str, file_version: &str) -> (r: bool)
    ensures
        r == opens(exec_version@, file_version@),
{
    let e = chars_of(&BlenderVersion::to_raw_version(exec_version));
    let f = chars_of(&BlenderVersion::to_raw_version(file_version));
    assert(e@.skip(0) =~= e@);
    assert(f@.skip(0) =~= f@);
    lex_ge_from(&e, &f, 0)
}

/// How many times the lookup may move on to the default version.
pub const MAX_DEFAULT_HOPS: u8 = 8;

/// The view of an optional string.
pub open spec fn opt_view(o: Option<String>) -> Option<Seq<char>> {
    match o {
        Some(s) => Some(s@),
        None => None,
    }
}

/// The executable recorded for `version`: the last entry with that key.
pub open spec fn lookup(entries: Seq<(String, String)>, version: Seq<char>) -> Option<Seq<char>>
    decreases entries.len(),
{
    if entries.len() == 0 {
        None
    } else if entries.last().0@ == version {
        Some(entries.last().1@)
    } else {
        lookup(entries.drop_last(), version)
    }
}

/// The configured executables and the default version.
pub struct Settings {
    /// Pairs of a dotted version and the path of the executable for it; where
    /// a version occurs twice, the later pair counts.
    pub executable_map: Vec<(String, String)>,
    /// The version whose executable opens files that no entry matches.
    pub default: Option<String>,
}

impl Settings {
    /// The executable configured for exactly `version`.
    pub open spec fn executable_for(&self, version: Seq<char>) -> Option<Seq<char>> {
        lookup(self.executable_map@, version)
    }

    /// The lookup with at most `hops` moves to the default version.
    pub open spec fn resolve(&self, version: Seq<char>, hops: nat) -> Option<Seq<char>>
        decreases hops,
    {
        if self.executable_for(version) is Some {
            self.executable_for(version)
        } else if hops > 0 && self.default is Some && opens(self.default->0@, version) {
            self.resolve(self.default->0@, (hops - 1) as nat)
        } else {
            None
        }
    }

    /// The executable for `version`: its own entry if there is one, else the
    /// default's entry when the default version can open it, else nothing.
    pub open spec fn resolved(&self, version: Seq<char>) -> Option<Seq<char>> {
        if self.executable_for(version) is Some {
            self.executable_for(version)
        } else if self.default is Some && opens(self.default->0@, version) {
            self.executable_for(self.default->0@)
        } else {
            None
        }
    }

    /// No executables and no default.
    pub fn new() -> (r: Settings)
        ensures
            r.executable_map@.len() == 0,
            r.default is None,
            forall|v: Seq<char>| r.executable_for(v) is None,
    {
        Settings { executable_map: Vec::new(), default: None }
    }

    /// Records `path` as the executable for `version`, replacing any earlier
    /// record for that version.
    pub fn insert(&mut self, version: String, path: String)
        ensures
            final(self).default == old(self).default,
            final(self).executable_for(version@) == Some(path@),
            forall|v: Seq<char>|
                v != version@ ==> #[trigger] final(self).executable_for(v) == old(
                    self,
                ).executable_for(v),
    {
        self.executable_map.push((version, path));
        assert(self.executable_map@.drop_last() =~= old(self).executable_map@);
    }

    fn find_entry(&self, version: &String) -> (r: Option<String>)
        ensures
            opt_view(r) == self.executable_for(version@),
    {
        let mut i: usize = self.executable_map.len();
        assert(self.executable_map@.take(i as int) =~= self.executable_map@);
        while i > 0
            invariant
                i <= self.executable_map@.len(),
                lookup(self.executable_map@.take(i as int), version@) == self.executable_for(
                    version@,
                ),
            decreases i,
        {
            assert(self.executable_map@.take(i as int).drop_last() =~= self.executable_map@.take(
                i - 1,
            ));
            if self.executable_map[i - 1].0 == *version {
                return Some(self.executable_map[i - 1].1.clone());
            }
            i = i - 1;
        }
        None
    }

    fn resolve_hops(&self, version: &String, hops: u8) -> (r: Option<String>)
        ensures
            opt_view(r) == self.resolve(version@, hops as nat),
        decreases hops,
    {
        let hit = self.find_entry(version);
        if hit.is_some() {
            return hit;
        }
        if hops > 0 {
            if let Some(d) = &self.default {
                if can_open(d.as_str(), version.as_str()) {
                    return self.resolve_hops(d, hops - 1);
                }
            }
        }
        None
    }

    /// The executable that opens files of `file_version`. An exact entry
    /// always wins; otherwise the lookup moves on to the default version when
    /// that version can open the file. A default without an entry of its own
    /// would send the lookup back to itself, so it ends there with nothing.
    pub fn get_executable(&self, file_version: &str) -> (r: Option<String>)
        ensures
            opt_view(r) == self.resolved(file_version@),
    {
        let v = file_version.to_owned();
        let r = self.resolve_hops(&v, MAX_DEFAULT_HOPS);
        proof {
            lemma_resolve_within_hops(*self, file_version@, MAX_DEFAULT_HOPS as nat);
        }
        r
    }
}

proof fn lemma_resolve_default(s: Settings, hops: nat)
    requires
        s.default is Some,
    ensures
        s.resolve(s.default->0@, hops) == s.executable_for(s.default->0@),
    decreases hops,
{
    lemma_lex_ge_reflexive(raw_of_canonical(s.default->0@));
    if hops > 0 {
        lemma_resolve_default(s, (hops - 1) as nat);
    }
}

proof fn lemma_resolve_within_hops(s: Settings, version: Seq<char>, hops: nat)
    requires
        hops >= 1,
    ensures
        s.resolve(version, hops) == s.resolved(version),
{
    if s.default is Some {
        lemma_resolve_default(s, (hops - 1) as nat);
    }
}

/// An exact entry for the file's version is what the lookup returns, whatever
/// the default and however new it is.
pub proof fn lemma_exact_match_wins(s: Settings, version: Seq<char>)
    requires
        s.executable_for(version) is Some,
    ensures
        s.resolved(version) == s.executable_for(version),
{
}

} // verus!
