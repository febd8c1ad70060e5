use vstd::prelude::*;
use crate::paths::{join, path_join};
use crate::reclaim::{measure_dir, total_file_bytes, EntryMeta};
use crate::text::{
    chars_of, lemma_precedes_irreflexive, lemma_precedes_transitive, occurs, occurs_in, precedes,
    precedes_exec,
};
use std::path::PathBuf;

verus! {

/// A directory holding this file directly under the scan root is a repo.
pub const CARGO_TOML: &'static str = "Cargo.toml";

/// The private build directory of a repo.
pub const TARGET_DIR: &'static str = "target";

/// The file cargo keeps in the target directory while a build runs.
pub const BUILD_LOCK_FILE: &'static str = ".cargo-lock";

/// The directory of a repo's cargo configuration.
pub const CARGO_CONFIG_DIR: &'static str = ".cargo";

/// The cargo config file that may anchor a repo, read first.
pub const CARGO_CONFIG_FILE: &'static str = "config.toml";

/// The older name of the cargo config file, read after `config.toml`.
pub const CARGO_CONFIG_LEGACY_FILE: &'static str = "config";

/// The directory of a repo's sources.
pub const SOURCE_DIR: &'static str = "src";

/// How a repo's private `target/` directory stands with respect to reclamation.
#[derive(Debug, Clone, Copy, PartialEq, Eq, Structural)]
pub enum Classification {
    /// Anchored to the shared hold, installed binary current, no build running.
    SafeToClean,
    /// Neither `CARGO_TARGET_DIR` nor a `target-dir` entry in the cargo config.
    NotAnchored,
    /// Sources are newer than the installed binary, or no binary is installed.
    BinaryStale,
    /// A `.cargo-lock` sits in the target directory.
    BuildInFlight,
    /// There is no target directory to reclaim.
    NoTarget,
}

/// The kebab-case label under which a classification is shown and recorded.
pub open spec fn spec_label(c: Classification) -> Seq<char> {
    match c {
        Classification::SafeToClean => "safe-to-clean"@,
        Classification::NotAnchored => "not-anchored"@,
        Classification::BinaryStale => "binary-stale"@,
        Classification::BuildInFlight => "build-in-flight"@,
        Classification::NoTarget => "no-target"@,
    }
}

impl Classification {
    /// The kebab-case label of this classification.
    pub fn label(&self) -> (s: &'static str)
        ensures
            s@ == spec_label(*self),
    {
        match self {
            Classification::SafeToClean => "safe-to-clean",
            Classification::NotAnchored => "not-anchored",
            Classification::BinaryStale => "binary-stale",
            Classification::BuildInFlight => "build-in-flight",
            Classification::NoTarget => "no-target",
        }
    }
}


/// The cargo-config key that points a build at another target directory.
pub open spec fn anchor_key() -> Seq<char> {
    "target-dir"@
}

/// A config text that could be read and mentions the anchor key.
pub open spec fn config_anchors(config: Option<String>) -> bool {
    match config {
        Some(text) => occurs_in(anchor_key(), text@),
        None => false,
    }
}

/// One of the config texts anchors the repo.
pub open spec fn some_config_anchors(configs: Seq<Option<String>>) -> bool {
    exists|i: int| 0 <= i < configs.len() && #[trigger] config_anchors(configs[i])
}

/// Whether a repo builds into a shared target directory: `CARGO_TARGET_DIR`
/// is set, or one of the repo's cargo config files mentions `target-dir`.
/// `configs` holds the text of each config file, `None` where it could not
/// be read as UTF-8 text.
pub fn is_anchored(cargo_target_dir_set: bool, configs: &Vec<Option<String>>) -> (b: bool)
    ensures
        b == (cargo_target_dir_set || some_config_anchors(configs@)),
        b <==> (cargo_target_dir_set || exists|i: int, t: String|
            #![trigger configs@[i], occurs_in("target-dir"@, t@)]
            0 <= i < configs.len() && configs@[i] == Some(t) && occurs_in("target-dir"@, t@)),
{
    proof {
        law_anchored_by_any_config(configs@);
    }
    if cargo_target_dir_set {
        return true;
    }
    let key = chars_of("target-dir");
    let mut i: usize = 0;
    while i < configs.len()
        invariant
            i <= configs.len(),
            key@ == anchor_key(),
            forall|j: int| 0 <= j < i ==> !#[trigger] config_anchors(configs@[j]),
        decreases configs.len() - i,
    {
        match &configs[i] {
            Some(text) => {
                let chars = chars_of(text.as_str());
                if occurs(&key, &chars) {
                    assert(config_anchors(configs@[i as int]));
                    return true;
                }
            },
            None => {},
        }
        i = i + 1;
    }
    false
}

/// A file met while walking a repo's `src/` tree: its name, as bytes, and its
/// modification time in nanoseconds since the Unix epoch (negative before it),
/// `None` where the time could not be read.
#[derive(Debug)]
pub struct SourceFile {
    pub file_name: Vec<u8>,
    pub modified: Option<i128>,
}

/// The name has the extension `rs`: something, a dot, then `rs` (bytes 46,
/// 114, 115 in ASCII).
pub open spec fn has_rs_extension(name: Seq<u8>) -> bool {
    &&& name.len() >= 4
    &&& name[name.len() - 3] == 46u8
    &&& name[name.len() - 2] == 114u8
    &&& name[name.len() - 1] == 115u8
}

/// A walked file that counts as Rust source with a known modification time.
pub open spec fn dated_rust_source(f: SourceFile) -> bool {
    has_rs_extension(f.file_name@) && f.modified is Some
}

/// Whether a file name has the extension `rs`.
pub fn is_rust_source_name(name: &Vec<u8>) -> (b: bool)
    ensures
        b == has_rs_extension(name@),
        b <==> exists|stem: Seq<u8>| stem.len() > 0 && name@ == stem + seq![46u8, 114u8, 115u8],
{
    let n = name.len();
    proof {
        law_rs_extension_is_dot_rs_suffix(name@);
    }
    n >= 4 && name[n - 3] == 46u8 && name[n - 2] == 114u8 && name[n - 1] == 115u8
}

/// The latest modification time among the dated Rust sources, `None` if there is none.
pub fn latest_source_mtime(files: &Vec<SourceFile>) -> (latest: Option<i128>)
    ensures
        latest is None <==> forall|i: int| 0 <= i < files.len() ==> !#[trigger] dated_rust_source(files@[i]),
        latest matches Some(m) ==> exists|i: int|
            0 <= i < files.len() && #[trigger] dated_rust_source(files@[i]) && files@[i].modified == Some(m),
        latest matches Some(m) ==> forall|i: int|
            0 <= i < files.len() && #[trigger] dated_rust_source(files@[i]) ==> files@[i].modified->0 <= m,
{
    let mut latest: Option<i128> = None;
    let mut i: usize = 0;
    while i < files.len()
        invariant
            i <= files.len(),
            latest is None <==> forall|j: int| 0 <= j < i ==> !#[trigger] dated_rust_source(files@[j]),
            latest matches Some(m) ==> exists|j: int|
                0 <= j < i && #[trigger] dated_rust_source(files@[j]) && files@[j].modified == Some(m),
            latest matches Some(m) ==> forall|j: int|
                0 <= j < i && #[trigger] dated_rust_source(files@[j]) ==> files@[j].modified->0 <= m,
        decreases files.len() - i,
    {
        let f = &files[i];
        if is_rust_source_name(&f.file_name) {
            match f.modified {
                Some(t) => {
                    match latest {
                        Some(m) => {
                            if t > m {
                                latest = Some(t);
                            }
                        },
                        None => {
                            latest = Some(t);
                        },
                    }
                    assert(dated_rust_source(files@[i as int]));
                },
                None => {},
            }
        }
        i = i + 1;
    }
    latest
}

/// Where cargo installs the binary `name` under the home directory `home`.
pub open spec fn spec_installed_binary_path(home: Seq<char>, name: Seq<char>) -> Seq<char> {
    path_join(path_join(path_join(home, ".cargo"@), "bin"@), name)
}

/// `~/.cargo/bin/<name>`, the installed binary of repo `name`; `home` is empty
/// when the home directory is unknown.
pub fn installed_binary_path(home: &str, name: &str) -> (path: String)
    ensures
        path@ == spec_installed_binary_path(home@, name@),
{
    let cargo = join(home, ".cargo");
    let bin = join(cargo.as_str(), "bin");
    join(bin.as_str(), name)
}

/// Some dated Rust source is newer than the binary installed at time `installed`.
pub open spec fn source_newer_than(files: Seq<SourceFile>, installed: i128) -> bool {
    exists|i: int| 0 <= i < files.len() && #[trigger] dated_rust_source(files[i]) && files[i].modified->0 > installed
}

/// Whether the installed binary may not reflect the sources. `installed` is
/// the binary's modification time, `None` when no binary is installed;
/// `sources` holds the files under the repo's `src/`, `None` when there is no
/// `src/`. No binary counts as stale (it cannot be shown current); no `src/`,
/// or no dated Rust source in it, counts as current.
pub fn is_binary_stale(installed: Option<i128>, sources: &Option<Vec<SourceFile>>) -> (stale: bool)
    ensures
        stale == match installed {
            None => true,
            Some(bin) => match sources {
                None => false,
                Some(files) => source_newer_than(files@, bin),
            },
        },
{
    match installed {
        None => true,
        Some(bin) => match sources {
            None => false,
            Some(files) => {
                match latest_source_mtime(files) {
                    Some(m) => {
                        if m > bin {
                            true
                        } else {
                            assert(!source_newer_than(files@, bin));
                            false
                        }
                    },
                    None => false,
                }
            },
        },
    }
}

/// A fact about a repo that only the file system can answer.
#[derive(Debug, Clone, Copy, PartialEq, Eq, Structural)]
pub enum Probe {
    /// Does the repo's `target/` directory exist?
    TargetDir,
    /// Does `target/.cargo-lock` exist?
    BuildLock,
    /// Is the repo anchored to a shared target directory (see `is_anchored`)?
    Anchor,
    /// Is the installed binary stale (see `is_binary_stale`)?
    BinaryStaleness,
}

/// The answers gathered so far about one repo; `None` where a probe was not made.
#[derive(Debug, Clone, Copy, PartialEq, Eq, Structural)]
pub struct Evidence {
    pub target_dir_exists: Option<bool>,
    pub build_lock_present: Option<bool>,
    pub anchored: Option<bool>,
    pub binary_stale: Option<bool>,
}

/// What `classify` makes of the evidence: a classification, or the probe it needs next.
#[derive(Debug, Clone, Copy, PartialEq, Eq, Structural)]
pub enum Verdict {
    Decided(Classification),
    NeedProbe(Probe),
}

/// The classification of a repo whose four facts are all known.
pub open spec fn classification_of(
    target_dir_exists: bool,
    build_lock_present: bool,
    anchored: bool,
    binary_stale: bool,
) -> Classification {
    if !target_dir_exists {
        Classification::NoTarget
    } else if build_lock_present {
        Classification::BuildInFlight
    } else if !anchored {
        Classification::NotAnchored
    } else if binary_stale {
        Classification::BinaryStale
    } else {
        Classification::SafeToClean
    }
}

impl Evidence {
    /// The answer recorded for a probe.
    pub open spec fn answer(self, p: Probe) -> Option<bool> {
        match p {
            Probe::TargetDir => self.target_dir_exists,
            Probe::BuildLock => self.build_lock_present,
            Probe::Anchor => self.anchored,
            Probe::BinaryStaleness => self.binary_stale,
        }
    }

    /// Evidence with no probe made yet.
    pub fn none() -> (e: Evidence)
        ensures
            forall|p: Probe| #[trigger] e.answer(p) is None,
    {
        Evidence { target_dir_exists: None, build_lock_present: None, anchored: None, binary_stale: None }
    }

    /// Records the answer to a probe, leaving the other answers as they were.
    pub fn record(&mut self, p: Probe, value: bool)
        ensures
            *final(self) == record_spec(*old(self), p, value),
            final(self).answer(p) == Some(value),
            forall|q: Probe| q != p ==> #[trigger] final(self).answer(q) == old(self).answer(q),
    {
        match p {
            Probe::TargetDir => { self.target_dir_exists = Some(value); },
            Probe::BuildLock => { self.build_lock_present = Some(value); },
            Probe::Anchor => { self.anchored = Some(value); },
            Probe::BinaryStaleness => { self.binary_stale = Some(value); },
        }
    }
}

/// The facts `t`, `l`, `a`, `s` agree with every answer that `e` holds.
pub open spec fn consistent(e: Evidence, t: bool, l: bool, a: bool, s: bool) -> bool {
    &&& (e.target_dir_exists is Some ==> e.target_dir_exists == Some(t))
    &&& (e.build_lock_present is Some ==> e.build_lock_present == Some(l))
    &&& (e.anchored is Some ==> e.anchored == Some(a))
    &&& (e.binary_stale is Some ==> e.binary_stale == Some(s))
}

/// The answers in `e` settle the classification as `c`: whatever the missing
/// answers turn out to be, the repo is classified `c`.
pub open spec fn determines(e: Evidence, c: Classification) -> bool {
    forall|t: bool, l: bool, a: bool, s: bool|
        consistent(e, t, l, a, s) ==> #[trigger] classification_of(t, l, a, s) == c
}

/// The first probe, in the order of the checks, that `e` holds no answer for.
pub open spec fn first_unanswered(e: Evidence) -> Probe {
    if e.target_dir_exists is None {
        Probe::TargetDir
    } else if e.build_lock_present is None {
        Probe::BuildLock
    } else if e.anchored is None {
        Probe::Anchor
    } else {
        Probe::BinaryStaleness
    }
}

/// What the evidence allows: the classification, once the known answers settle
/// it; otherwise the first probe still unanswered.
pub open spec fn verdict(e: Evidence) -> Verdict {
    if exists|c: Classification| determines(e, c) {
        Verdict::Decided(choose|c: Classification| determines(e, c))
    } else {
        Verdict::NeedProbe(first_unanswered(e))
    }
}

/// The checks run in order, the first failing one deciding.
spec fn stepwise(e: Evidence) -> Verdict {
    match e.target_dir_exists {
        None => Verdict::NeedProbe(Probe::TargetDir),
        Some(false) => Verdict::Decided(Classification::NoTarget),
        Some(true) => match e.build_lock_present {
            None => Verdict::NeedProbe(Probe::BuildLock),
            Some(true) => Verdict::Decided(Classification::BuildInFlight),
            Some(false) => match e.anchored {
                None => Verdict::NeedProbe(Probe::Anchor),
                Some(false) => Verdict::Decided(Classification::NotAnchored),
                Some(true) => match e.binary_stale {
                    None => Verdict::NeedProbe(Probe::BinaryStaleness),
                    Some(true) => Verdict::Decided(Classification::BinaryStale),
                    Some(false) => Verdict::Decided(Classification::SafeToClean),
                },
            },
        },
    }
}

spec fn known_or(x: Option<bool>, d: bool) -> bool {
    match x {
        Some(v) => v,
        None => d,
    }
}

/// Running the checks in order gives exactly the verdict the evidence allows.
proof fn lemma_stepwise_is_verdict(e: Evidence)
    ensures
        verdict(e) == stepwise(e),
        forall|c: Classification| (stepwise(e) == Verdict::Decided(c)) <==> determines(e, c),
{
    let t = known_or(e.target_dir_exists, true);
    let l = known_or(e.build_lock_present, false);
    let a = known_or(e.anchored, true);
    let s = known_or(e.binary_stale, false);
    assert(consistent(e, t, l, a, s));
    match stepwise(e) {
        Verdict::Decided(c0) => {
            assert(determines(e, c0));
            assert forall|c: Classification| determines(e, c) implies c == c0 by {
                assert(classification_of(t, l, a, s) == c);
            }
        },
        Verdict::NeedProbe(p) => {
            // Two completions of the evidence that the checks classify differently.
            let (t1, l1, a1, s1, t2, l2, a2, s2) = if e.target_dir_exists is None {
                (false, l, a, s, true, l, a, s)
            } else if e.build_lock_present is None {
                (t, true, a, s, t, false, a, s)
            } else if e.anchored is None {
                (t, l, false, s, t, l, true, s)
            } else {
                (t, l, a, true, t, l, a, false)
            };
            assert(consistent(e, t1, l1, a1, s1));
            assert(consistent(e, t2, l2, a2, s2));
            assert(classification_of(t1, l1, a1, s1) != classification_of(t2, l2, a2, s2));
            assert forall|c: Classification| !determines(e, c) by {
                if determines(e, c) {
                    assert(classification_of(t1, l1, a1, s1) == c);
                    assert(classification_of(t2, l2, a2, s2) == c);
                }
            }
        },
    }
}

/// Classifies a repo from the evidence gathered so far, or names the probe
/// to make next. The caller makes the probe, records the answer and asks
/// again; a repo is classified after at most four probes.
pub fn classify(e: &Evidence) -> (v: Verdict)
    ensures
        v == verdict(*e),
        forall|c: Classification| (v == Verdict::Decided(c)) <==> determines(*e, c),
        v matches Verdict::NeedProbe(p) ==> p == first_unanswered(*e) && e.answer(p) is None,
{
    proof {
        lemma_stepwise_is_verdict(*e);
    }
    match e.target_dir_exists {
        None => Verdict::NeedProbe(Probe::TargetDir),
        Some(false) => Verdict::Decided(Classification::NoTarget),
        Some(true) => match e.build_lock_present {
            None => Verdict::NeedProbe(Probe::BuildLock),
            Some(true) => Verdict::Decided(Classification::BuildInFlight),
            Some(false) => match e.anchored {
                None => Verdict::NeedProbe(Probe::Anchor),
                Some(false) => Verdict::Decided(Classification::NotAnchored),
                Some(true) => match e.binary_stale {
                    None => Verdict::NeedProbe(Probe::BinaryStaleness),
                    Some(true) => Verdict::Decided(Classification::BinaryStale),
                    Some(false) => Verdict::Decided(Classification::SafeToClean),
                },
            },
        },
    }
}

/// The evidence that holds the true answers `t`, `l`, `a`, `s` for every probe.
pub open spec fn full_evidence(t: bool, l: bool, a: bool, s: bool) -> Evidence {
    Evidence {
        target_dir_exists: Some(t),
        build_lock_present: Some(l),
        anchored: Some(a),
        binary_stale: Some(s),
    }
}

/// `later` holds every answer that `earlier` holds, and maybe more.
pub open spec fn extends(later: Evidence, earlier: Evidence) -> bool {
    forall|p: Probe| #[trigger] earlier.answer(p) is Some ==> later.answer(p) == earlier.answer(p)
}

/// Runs the probe loop for `steps` rounds, answering each probe from the true facts.
pub open spec fn drive(e: Evidence, t: bool, l: bool, a: bool, s: bool, steps: nat) -> Evidence
    decreases steps,
{
    if steps == 0 {
        e
    } else {
        match verdict(e) {
            Verdict::Decided(_) => e,
            Verdict::NeedProbe(p) => {
                let v = match p {
                    Probe::TargetDir => t,
                    Probe::BuildLock => l,
                    Probe::Anchor => a,
                    Probe::BinaryStaleness => s,
                };
                drive(record_spec(e, p, v), t, l, a, s, (steps - 1) as nat)
            },
        }
    }
}

/// The evidence after recording `value` for probe `p`.
pub open spec fn record_spec(e: Evidence, p: Probe, value: bool) -> Evidence {
    match p {
        Probe::TargetDir => Evidence { target_dir_exists: Some(value), ..e },
        Probe::BuildLock => Evidence { build_lock_present: Some(value), ..e },
        Probe::Anchor => Evidence { anchored: Some(value), ..e },
        Probe::BinaryStaleness => Evidence { binary_stale: Some(value), ..e },
    }
}

/// With every fact known, the verdict is the classification by the checks in order.
pub proof fn law_full_evidence_decides(t: bool, l: bool, a: bool, s: bool)
    ensures
        verdict(full_evidence(t, l, a, s)) == Verdict::Decided(classification_of(t, l, a, s)),
{
    lemma_stepwise_is_verdict(full_evidence(t, l, a, s));
}

/// A repo is safe to clean exactly when its target exists, no build holds it,
/// it is anchored and its installed binary is current.
pub proof fn law_safe_to_clean_exactly_when_all_clear(t: bool, l: bool, a: bool, s: bool)
    ensures
        (classification_of(t, l, a, s) == Classification::SafeToClean) <==> (t && !l && a && !s),
{
}

/// Once the evidence settles a classification, further answers do not change
/// it: the probes not yet made cannot matter.
pub proof fn law_decision_is_final(earlier: Evidence, later: Evidence, c: Classification)
    requires
        verdict(earlier) == Verdict::Decided(c),
        extends(later, earlier),
    ensures
        verdict(later) == Verdict::Decided(c),
{
    lemma_stepwise_is_verdict(earlier);
    lemma_stepwise_is_verdict(later);
    assert(earlier.answer(Probe::TargetDir) is Some);
    if earlier.target_dir_exists == Some(true) {
        assert(earlier.answer(Probe::BuildLock) is Some);
        if earlier.build_lock_present == Some(false) {
            assert(earlier.answer(Probe::Anchor) is Some);
            if earlier.anchored == Some(true) {
                assert(earlier.answer(Probe::BinaryStaleness) is Some);
            }
        }
    }
}

/// Starting from no evidence and answering each probe truthfully, the loop
/// reaches the classification of the true facts within four probes.
pub proof fn law_four_probes_suffice(t: bool, l: bool, a: bool, s: bool)
    ensures
        verdict(drive(Evidence { target_dir_exists: None, build_lock_present: None, anchored: None, binary_stale: None }, t, l, a, s, 4))
            == Verdict::Decided(classification_of(t, l, a, s)),
{
    assert forall|e: Evidence| #[trigger] verdict(e) == stepwise(e) by {
        lemma_stepwise_is_verdict(e);
    }
    reveal_with_fuel(drive, 5);
}

#[verifier::external_type_specification]
#[verifier::external_body]
pub struct ExPathBuf(PathBuf);

/// One repo found under the scan root.
#[derive(Debug)]
pub struct RepoEntry {
    pub name: String,
    pub path: PathBuf,
    pub classification: Classification,
    pub target_bytes: u64,
}

/// The name a repo is listed under: its directory name, or `unknown` when
/// that name is not valid UTF-8.
pub open spec fn listed_name(dir_name: Option<Seq<char>>) -> Seq<char> {
    match dir_name {
        Some(n) => n,
        None => "unknown"@,
    }
}

/// The name a repo is listed under; `dir_name` is `None` when the directory's
/// name is not valid UTF-8.
pub fn repo_name(dir_name: Option<String>) -> (name: String)
    ensures
        name@ == listed_name(match dir_name {
            Some(n) => Some(n@),
            None => None,
        }),
{
    match dir_name {
        Some(n) => n,
        None => String::from_str("unknown"),
    }
}

/// The bytes held by the regular files under a repo's `target/`, `None` when
/// the total does not fit in a `u64`.
pub fn dir_size(entries: &Vec<Option<EntryMeta>>) -> (total: Option<u64>)
    ensures
        total matches Some(t) ==> t == total_file_bytes(entries@),
        total is None <==> total_file_bytes(entries@) > u64::MAX,
{
    measure_dir(entries)
}

/// No entry's name precedes the name of an entry before it.
pub open spec fn sorted_by_name(s: Seq<RepoEntry>) -> bool {
    forall|i: int, j: int| 0 <= i < j < s.len() ==> !precedes(#[trigger] s[j].name@, #[trigger] s[i].name@)
}

/// `perm` maps each position of `sorted` to the position in `orig` that the
/// entry came from, one to one, and entries of the same name keep their
/// order.
pub open spec fn stable_reordering(orig: Seq<RepoEntry>, sorted: Seq<RepoEntry>, perm: Seq<int>) -> bool {
    &&& sorted.len() == orig.len()
    &&& perm.len() == orig.len()
    &&& forall|i: int| 0 <= i < perm.len() ==> 0 <= #[trigger] perm[i] < orig.len()
    &&& forall|i: int, j: int| 0 <= i < j < perm.len() ==> #[trigger] perm[i] != #[trigger] perm[j]
    &&& forall|i: int| 0 <= i < sorted.len() ==> #[trigger] sorted[i] == orig[perm[i]]
    &&& forall|i: int, j: int|
        0 <= i < j < sorted.len() && (#[trigger] sorted[i]).name@ == (#[trigger] sorted[j]).name@
            ==> perm[i] < perm[j]
}

/// Sorts the entries by name in code-point order, keeping entries of the same
/// name in the order they came.
pub fn sort_by_name(entries: Vec<RepoEntry>) -> (sorted: Vec<RepoEntry>)
    ensures
        sorted_by_name(sorted@),
        exists|perm: Seq<int>| stable_reordering(entries@, sorted@, perm),
{
    let ghost orig = entries@;
    let mut rest = entries;
    let mut out: Vec<RepoEntry> = Vec::new();
    let ghost mut perm: Seq<int> = Seq::empty();
    let ghost mut k: int = 0;
    while rest.len() > 0
        invariant
            0 <= k <= orig.len(),
            rest@ == orig.skip(k),
            out.len() == k,
            perm.len() == k,
            forall|i: int| 0 <= i < k ==> 0 <= #[trigger] perm[i] < k,
            forall|i: int, j: int| 0 <= i < j < k ==> #[trigger] perm[i] != #[trigger] perm[j],
            forall|i: int| 0 <= i < k ==> #[trigger] out@[i] == orig[perm[i]],
            forall|i: int, j: int|
                0 <= i < j < k && (#[trigger] out@[i]).name@ == (#[trigger] out@[j]).name@
                    ==> perm[i] < perm[j],
            sorted_by_name(out@),
        decreases rest.len(),
    {
        let x = rest.remove(0);
        assert(x == orig[k]);
        assert(rest@ =~= orig.skip(k + 1));
        let xname = chars_of(x.name.as_str());
        let mut pos: usize = 0;
        let mut found = false;
        while !found && pos < out.len()
            invariant
                pos <= out.len(),
                xname@ == x.name@,
                found ==> pos < out.len() && precedes(xname@, out@[pos as int].name@),
                forall|j: int| 0 <= j < pos ==> !precedes(xname@, #[trigger] out@[j].name@),
            decreases out.len() - pos + (if found { 0int } else { 1int }),
        {
            let other = chars_of(out[pos].name.as_str());
            if precedes_exec(&xname, &other) {
                found = true;
            } else {
                pos = pos + 1;
            }
        }
        let ghost old_out = out@;
        proof {
            assert forall|j: int| pos <= j < old_out.len() implies !precedes(#[trigger] old_out[j].name@, x.name@) by {
                if precedes(old_out[j].name@, x.name@) {
                    if j == pos {
                        lemma_precedes_transitive(old_out[j].name@, x.name@, old_out[j].name@);
                        lemma_precedes_irreflexive(old_out[j].name@);
                    } else {
                        lemma_precedes_transitive(old_out[j].name@, x.name@, old_out[pos as int].name@);
                    }
                }
            }
            assert forall|j: int| pos <= j < old_out.len() implies old_out[j].name@ != x.name@ by {
                if old_out[j].name@ == x.name@ {
                    if j == pos {
                        lemma_precedes_irreflexive(x.name@);
                    } else {
                        assert(!precedes(old_out[j].name@, old_out[pos as int].name@));
                    }
                }
            }
        }
        out.insert(pos, x);
        proof {
            perm = perm.insert(pos as int, k);
            k = k + 1;
            assert forall|i: int, j: int| 0 <= i < j < out@.len() implies
                !precedes(#[trigger] out@[j].name@, #[trigger] out@[i].name@) by {
                if j < pos {
                    assert(out@[i] == old_out[i] && out@[j] == old_out[j]);
                } else if j == pos {
                    assert(out@[i] == old_out[i]);
                } else if i < pos {
                    assert(out@[i] == old_out[i] && out@[j] == old_out[j - 1]);
                } else if i == pos {
                    assert(out@[j] == old_out[j - 1]);
                } else {
                    assert(out@[i] == old_out[i - 1] && out@[j] == old_out[j - 1]);
                }
            }
        }
    }
    proof {
        assert(stable_reordering(orig, out@, perm));
    }
    out
}


/// An entry that `apply` cleans: it is safe to clean, and it is the requested
/// repo when one was named.
pub open spec fn chosen_for_apply(e: RepoEntry, only: Option<String>) -> bool {
    &&& e.classification == Classification::SafeToClean
    &&& match only {
        Some(name) => e.name@ == name@,
        None => true,
    }
}

/// `chosen` lists, in increasing order and each once, exactly the positions of
/// the entries that `apply` cleans.
pub open spec fn apply_selection(entries: Seq<RepoEntry>, only: Option<String>, chosen: Seq<usize>) -> bool {
    &&& forall|k: int| 0 <= k < chosen.len() ==> #[trigger] chosen[k] < entries.len()
    &&& forall|k: int, l: int| 0 <= k < l < chosen.len() ==> #[trigger] chosen[k] < #[trigger] chosen[l]
    &&& forall|k: int| 0 <= k < chosen.len() ==> chosen_for_apply(entries[#[trigger] chosen[k] as int], only)
    &&& forall|i: int| 0 <= i < entries.len() && chosen_for_apply(#[trigger] entries[i], only)
        ==> chosen.contains(i as usize)
}

/// The positions, in order, of the entries that `apply` cleans: those
/// classified safe to clean and, when `only` names a repo, of that name.
pub fn select_for_apply(entries: &Vec<RepoEntry>, only: &Option<String>) -> (chosen: Vec<usize>)
    ensures
        apply_selection(entries@, *only, chosen@),
        forall|k: int| 0 <= k < chosen.len() ==> (#[trigger] entries@[chosen@[k] as int]).classification == Classification::SafeToClean,
        forall|k: int| 0 <= k < chosen.len() ==> match *only {
            Some(n) => (#[trigger] entries@[chosen@[k] as int]).name@ == n@,
            None => true,
        },
        forall|i: int| 0 <= i < entries.len() && (#[trigger] entries@[i]).classification == Classification::SafeToClean
            && (match *only { Some(n) => entries@[i].name@ == n@, None => true }) ==> chosen@.contains(i as usize),
{
    proof {
        law_apply_cleans_exactly_the_named_safe_repos(entries@, *only, Seq::empty());
    }
    let mut chosen: Vec<usize> = Vec::new();
    let mut i: usize = 0;
    while i < entries.len()
        invariant
            i <= entries.len(),
            forall|k: int| 0 <= k < chosen.len() ==> #[trigger] chosen@[k] < i,
            forall|k: int, l: int| 0 <= k < l < chosen.len() ==> #[trigger] chosen@[k] < #[trigger] chosen@[l],
            forall|k: int| 0 <= k < chosen.len() ==> chosen_for_apply(entries@[#[trigger] chosen@[k] as int], *only),
            forall|j: int| 0 <= j < i && chosen_for_apply(#[trigger] entries@[j], *only)
                ==> chosen@.contains(j as usize),
        decreases entries.len() - i,
    {
        let e = &entries[i];
        let safe = e.classification == Classification::SafeToClean;
        let wanted = match only {
            Some(name) => e.name == *name,
            None => true,
        };
        if safe && wanted {
            let ghost before = chosen@;
            chosen.push(i);
            proof {
                assert(chosen@[chosen@.len() - 1] == i);
                assert forall|j: int| 0 <= j <= i && chosen_for_apply(#[trigger] entries@[j], *only)
                    implies chosen@.contains(j as usize) by {
                    if j < i {
                        let k = choose|k: int| 0 <= k < before.len() && before[k] == j as usize;
                        assert(chosen@[k] == j as usize);
                    }
                }
            }
        }
        i = i + 1;
    }
    chosen
}


/// A file name has the extension `rs` exactly when it is a non-empty stem
/// followed by the three bytes `.rs`; so `handlers`, `errors` or `.rs` alone
/// are not Rust sources.
pub proof fn law_rs_extension_is_dot_rs_suffix(name: Seq<u8>)
    ensures
        has_rs_extension(name) <==> exists|stem: Seq<u8>| stem.len() > 0 && name == stem + seq![46u8, 114u8, 115u8],
        has_rs_extension(name) ==> name[name.len() - 3] == 46u8,
{
    if has_rs_extension(name) {
        let stem = name.take(name.len() - 3);
        assert(name =~= stem + seq![46u8, 114u8, 115u8]);
    }
    if exists|stem: Seq<u8>| stem.len() > 0 && name == stem + seq![46u8, 114u8, 115u8] {
        let stem = choose|stem: Seq<u8>| stem.len() > 0 && name == stem + seq![46u8, 114u8, 115u8];
        assert(name[name.len() - 3] == 46u8);
        assert(name[name.len() - 2] == 114u8);
        assert(name[name.len() - 1] == 115u8);
    }
}

/// Any config text that mentions `target-dir` anchors the repo, wherever it
/// stands among the config files, and only such a text does.
pub proof fn law_anchored_by_any_config(configs: Seq<Option<String>>)
    ensures
        some_config_anchors(configs) <==> exists|i: int, t: String|
            #![trigger configs[i], occurs_in("target-dir"@, t@)]
            0 <= i < configs.len() && configs[i] == Some(t) && occurs_in("target-dir"@, t@),
        forall|i: int, t: String| 0 <= i < configs.len() && configs[i] == Some(t)
            && occurs_in("target-dir"@, t@) ==> some_config_anchors(configs),
{
    assert forall|i: int, t: String| 0 <= i < configs.len() && configs[i] == Some(t)
        && occurs_in("target-dir"@, t@) implies some_config_anchors(configs) by {
        assert(config_anchors(configs[i]));
    }
    if some_config_anchors(configs) {
        let i = choose|i: int| 0 <= i < configs.len() && #[trigger] config_anchors(configs[i]);
        let t = configs[i]->0;
        assert(configs[i] == Some(t) && occurs_in("target-dir"@, t@));
    }
}

/// `apply` cleans exactly the safe-to-clean repos and, when a repo is named,
/// only repos of exactly that name (a name that merely contains it is not
/// enough); every such repo is cleaned.
pub proof fn law_apply_cleans_exactly_the_named_safe_repos(
    entries: Seq<RepoEntry>,
    only: Option<String>,
    chosen: Seq<usize>,
)
    ensures
        apply_selection(entries, only, chosen) ==> forall|k: int| 0 <= k < chosen.len() ==> {
            &&& (#[trigger] entries[chosen[k] as int]).classification == Classification::SafeToClean
            &&& match only {
                Some(n) => entries[chosen[k] as int].name@ == n@,
                None => true,
            }
        },
        apply_selection(entries, only, chosen) ==> forall|i: int| 0 <= i < entries.len()
            && (#[trigger] entries[i]).classification == Classification::SafeToClean
            && (match only { Some(n) => entries[i].name@ == n@, None => true }) ==> chosen.contains(i as usize),
{
    if apply_selection(entries, only, chosen) {
        assert forall|k: int| 0 <= k < chosen.len() implies {
            &&& (#[trigger] entries[chosen[k] as int]).classification == Classification::SafeToClean
            &&& match only {
                Some(n) => entries[chosen[k] as int].name@ == n@,
                None => true,
            }
        } by {
            assert(chosen_for_apply(entries[chosen[k] as int], only));
        }
        assert forall|i: int| 0 <= i < entries.len()
            && (#[trigger] entries[i]).classification == Classification::SafeToClean
            && (match only { Some(n) => entries[i].name@ == n@, None => true }) implies chosen.contains(i as usize) by {
            assert(chosen_for_apply(entries[i], only));
        }
    }
}

} // verus!
