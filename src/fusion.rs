//! Fusion of the run record with static analysis: when to walk the import
//! graph, the walk itself, which issue is reported first, and the exit code.
use vstd::prelude::*;
use crate::debug_run::{RunEndKind, RunOutcome};
use crate::order::{chars_eq, chars_lt, seq_lt};
use crate::search::{CandidateResult, ResolutionKind};
use crate::text::chars_of;

verus! {

/// Exception and exit codes that mean the loader failed: DLL not found,
/// entry point not found, bad image, DLL init failed, illegal instruction,
/// and the HRESULT forms of not-found and bad-image.
pub open spec fn loader_code(code: u32) -> bool {
    code == 0xC0000135u32 || code == 0xC0000139u32 || code == 0xC000007Bu32 || code
        == 0xC0000142u32 || code == 0xC000001Du32 || code == 0x8007007Eu32 || code == 0x800700C1u32
}

/// `code` is one of the loader-failure codes.
pub fn is_loader_related_code(code: u32) -> (r: bool)
    ensures
        r == loader_code(code),
{
    code == 0xC0000135u32 || code == 0xC0000139u32 || code == 0xC000007Bu32 || code
        == 0xC0000142u32 || code == 0xC000001Du32 || code == 0x8007007Eu32 || code == 0x800700C1u32
}

/// How sure the tool is that the run failed in the loader.
#[derive(Clone, Copy, Debug, PartialEq, Eq, Structural)]
pub enum Confidence {
    High,
    Medium,
}

/// The longest run, in milliseconds, that still counts as an early failure.
pub const EARLY_FAIL_MS: u128 = 1500;

/// The most DLLs an early failure may have loaded.
pub const EARLY_FAIL_MAX_MODULES: usize = 6;

/// Whether static analysis runs after `o`, and how sure it is: high where the
/// terminal code is a loader-failure code; medium where the target exited
/// with a non-zero code in under 1.5 s after loading at most six DLLs.
pub open spec fn trigger_of(o: &RunOutcome) -> Option<Confidence> {
    if o.exception_code is Some && loader_code(o.exception_code->Some_0) {
        Some(Confidence::High)
    } else if o.end_kind == RunEndKind::ExitProcess && (o.exit_code is Some && o.exit_code->Some_0
        != 0) && o.elapsed_ms < EARLY_FAIL_MS && o.loaded_modules@.len() <= EARLY_FAIL_MAX_MODULES {
        Some(Confidence::Medium)
    } else {
        None
    }
}

/// Whether static analysis runs after `outcome`, and with what confidence.
pub fn static_trigger(outcome: &RunOutcome) -> (r: Option<Confidence>)
    ensures
        r == trigger_of(outcome),
{
    match outcome.exception_code {
        Some(c) => {
            if is_loader_related_code(c) {
                return Some(Confidence::High);
            }
        },
        None => {},
    }
    let nonzero_exit = match outcome.exit_code {
        Some(c) => c != 0,
        None => false,
    };
    if outcome.end_kind == RunEndKind::ExitProcess && nonzero_exit && outcome.elapsed_ms
        < EARLY_FAIL_MS && outcome.loaded_modules.len() <= EARLY_FAIL_MAX_MODULES {
        Some(Confidence::Medium)
    } else {
        None
    }
}

/// The tool's exit code after a run: 10 where a missing or bad DLL was
/// found; else 0 for a clean exit with code 0 or a timeout after at least one
/// DLL loaded; else 21.
pub open spec fn exit_code_of(missing_or_bad: usize, o: &RunOutcome) -> i32 {
    if missing_or_bad > 0 {
        10
    } else if o.end_kind == RunEndKind::ExitProcess && o.exit_code == Some(0u32) {
        0
    } else if o.end_kind == RunEndKind::Timeout && o.loaded_modules@.len() > 0 {
        0
    } else {
        21
    }
}

/// The tool's exit code after a run.
pub fn run_exit_code(missing_or_bad: usize, outcome: &RunOutcome) -> (r: i32)
    ensures
        r == exit_code_of(missing_or_bad, outcome),
{
    if missing_or_bad > 0 {
        return 10;
    }
    match outcome.end_kind {
        RunEndKind::ExitProcess => {
            if outcome.exit_code == Some(0u32) {
                0
            } else {
                21
            }
        },
        RunEndKind::Timeout => {
            if outcome.loaded_modules.len() > 0 {
                0
            } else {
                21
            }
        },
        RunEndKind::Exception => 21,
    }
}

/// The exit code in test mode.
pub open spec fn test_exit_code_of(o: &RunOutcome, load_failure_detected: bool) -> i32 {
    if o.end_kind == RunEndKind::Timeout {
        3
    } else if load_failure_detected || o.end_kind == RunEndKind::Exception {
        2
    } else {
        0
    }
}

/// The exit code in test mode: 3 for a timeout, 2 for a load failure or an
/// exception, else 0.
pub fn test_mode_exit_code(outcome: &RunOutcome, load_failure_detected: bool) -> (r: i32)
    ensures
        r == test_exit_code_of(outcome, load_failure_detected),
{
    if outcome.end_kind == RunEndKind::Timeout {
        return 3;
    }
    if load_failure_detected || outcome.end_kind == RunEndKind::Exception {
        return 2;
    }
    0
}

/// A missing or bad import, as reported.
pub struct FirstIssue {
    pub module: String,
    pub via: String,
    pub depth: u32,
    pub dll: String,
    pub diagnosis: &'static str,
    pub kind: ResolutionKind,
    pub candidates: Vec<CandidateResult>,
}

/// The order of issues: by depth, then by the module that needs the DLL,
/// then by the DLL.
pub type IssueKey = (u32, Seq<char>, Seq<char>);

impl FirstIssue {
    pub open spec fn key(&self) -> IssueKey {
        (self.depth, self.via@, self.dll@)
    }
}

/// `a` sorts strictly before `b`.
pub open spec fn issue_key_lt(a: IssueKey, b: IssueKey) -> bool {
    a.0 < b.0 || (a.0 == b.0 && (seq_lt(a.1, b.1) || (a.1 == b.1 && seq_lt(a.2, b.2))))
}

fn str_lt(a: &str, b: &str) -> (r: bool)
    ensures
        r == seq_lt(a@, b@),
{
    chars_lt(&chars_of(a), &chars_of(b))
}

fn str_eq(a: &str, b: &str) -> (r: bool)
    ensures
        r == (a@ == b@),
{
    chars_eq(&chars_of(a), &chars_of(b))
}

/// Keeps in `current` the issue that sorts first.
pub fn consider_first_issue(current: &mut Option<FirstIssue>, candidate: FirstIssue)
    ensures
        match *old(current) {
            None => *final(current) == Some(candidate),
            Some(e) => if issue_key_lt(candidate.key(), e.key()) {
                *final(current) == Some(candidate)
            } else {
                *final(current) == Some(e)
            },
        },
{
    let replace = match current {
        None => true,
        Some(existing) => {
            candidate.depth < existing.depth || (candidate.depth == existing.depth && (str_lt(
                candidate.via.as_str(),
                existing.via.as_str(),
            ) || (str_eq(candidate.via.as_str(), existing.via.as_str()) && str_lt(
                candidate.dll.as_str(),
                existing.dll.as_str(),
            ))))
        },
    };
    if replace {
        *current = Some(candidate);
    }
}

} // verus!

verus! {

/// A module reached by the import walk.
pub struct WalkNode {
    pub image_path: String,
    pub module_name: String,
    pub depth: u32,
}

/// Whether the walk reports every step or only the failures.
#[derive(Clone, Copy, Debug, PartialEq, Eq, Structural)]
pub enum StaticEmitMode {
    Full,
    FailuresOnly,
}

/// What the walk does with one import of a module.
#[derive(Clone, Copy, Debug, PartialEq, Eq, Structural)]
pub enum ImportAction {
    /// An API-set stub: resolved by definition.
    SkipApiSet,
    /// A direct import of the target that was seen loaded at run time.
    RuntimeObserved,
    /// Resolve it against the search order.
    Resolve,
}

/// The result of the static walk.
pub struct StaticReport {
    pub missing_or_bad: usize,
    pub first_issue: Option<FirstIssue>,
    pub safedll: bool,
}

/// The lowercase name of a module: its file name, else the whole path.
pub open spec fn module_name_lower_of(path: Seq<char>) -> Seq<char> {
    match crate::debug_run::file_name_of(path) {
        Some(n) => crate::text::lower_seq(n),
        None => crate::text::lower_seq(path),
    }
}

/// The lowercase name of a module.
pub fn module_name_lower(path: &str) -> (r: String)
    ensures
        r@ == module_name_lower_of(path@),
{
    let lower = match crate::debug_run::file_name_chars(path) {
        Some(n) => crate::text::lower_chars(&n),
        None => crate::text::lower_chars(&chars_of(path)),
    };
    crate::text::string_of(&lower)
}

} // verus!

verus! {

/// The token of a missing static import.
pub open spec fn diagnosis_of(k: ResolutionKind) -> Seq<char> {
    if k == ResolutionKind::BadImage {
        "BAD_STATIC_IMPORT_IMAGE"@
    } else {
        "MISSING_STATIC_IMPORT"@
    }
}

/// What every reported issue looks like: the needing module is the `via`
/// module, it sits at least one level below the target, it did not resolve,
/// its diagnosis matches its kind, and it is no API-set stub.
pub open spec fn issue_shape(f: &FirstIssue) -> bool {
    &&& f.module@ == f.via@
    &&& f.depth >= 1
    &&& f.kind != ResolutionKind::Found
    &&& f.diagnosis@ == diagnosis_of(f.kind)
    &&& !crate::snaps::api_set_dll(f.dll@)
}

/// Breadth-first walk over the import graph of one image. The caller reads
/// each module's imports and resolves them; the walk decides what to visit,
/// counts the failures and keeps the one reported first.
pub struct StaticWalk {
    pub queue: std::collections::VecDeque<WalkNode>,
    pub visited: Vec<String>,
    pub missing: usize,
    pub first_issue: Option<FirstIssue>,
    pub max_parent_depth: Option<u32>,
    pub mode: StaticEmitMode,
    pub runtime_loaded: Vec<String>,
    /// Every issue found so far, in order.
    pub issues: Ghost<Seq<IssueKey>>,
}

impl StaticWalk {
    /// The count is that of the issues found (saturating), and the first issue
    /// is the least of them: no issue sorts before it.
    pub open spec fn wf(&self) -> bool {
        &&& self.missing == if self.issues@.len() <= usize::MAX {
            self.issues@.len() as int
        } else {
            usize::MAX as int
        }
        &&& (self.first_issue is None <==> self.issues@.len() == 0)
        &&& (self.first_issue matches Some(f) ==> (self.issues@.contains(f.key()) && forall|i: int|
            0 <= i < self.issues@.len() ==> !issue_key_lt(#[trigger] self.issues@[i], f.key())))
        &&& (self.first_issue matches Some(f) ==> issue_shape(&f))
    }

    /// A walk that starts at the image `root_path`, whose visit key is
    /// `root_key`. `runtime_loaded` holds the lowercase names of the DLLs seen
    /// loaded at run time.
    pub fn new(root_path: String, root_key: String, runtime_loaded: Vec<String>, mode: StaticEmitMode) -> (r: StaticWalk)
        ensures
            r.wf(),
            r.queue@.len() == 1,
            r.queue@[0].image_path@ == root_path@,
            r.queue@[0].module_name@ == module_name_lower_of(root_path@),
            r.queue@[0].depth == 0,
            r.visited@.map_values(|k: String| k@) == seq![root_key@],
            r.missing == 0,
            r.mode == mode,
            r.max_parent_depth is None,
            r.runtime_loaded@ == runtime_loaded@,
    {
        let module_name = module_name_lower(root_path.as_str());
        let mut queue = std::collections::VecDeque::new();
        queue.push_back(WalkNode { image_path: root_path, module_name, depth: 0 });
        let mut visited: Vec<String> = Vec::new();
        visited.push(root_key);
        proof {
            assert(visited@.map_values(|k: String| k@) =~= seq![visited@[0]@]);
        }
        StaticWalk {
            queue,
            visited,
            missing: 0,
            first_issue: None,
            max_parent_depth: None,
            mode,
            runtime_loaded,
            issues: Ghost(Seq::empty()),
        }
    }

    /// The next module to read, in breadth-first order. When only failures are
    /// reported, the walk stops at the first module deeper than the one whose
    /// import first failed.
    pub fn next_node(&mut self) -> (r: Option<WalkNode>)
        requires
            old(self).wf(),
        ensures
            final(self).wf(),
            final(self).issues == old(self).issues,
            final(self).visited == old(self).visited,
            final(self).mode == old(self).mode,
            final(self).max_parent_depth == old(self).max_parent_depth,
            final(self).runtime_loaded == old(self).runtime_loaded,
            old(self).queue@.len() == 0 ==> r is None,
            old(self).queue@.len() > 0 ==> final(self).queue@ == old(self).queue@.drop_first(),
            old(self).queue@.len() > 0 ==> if old(self).mode == StaticEmitMode::FailuresOnly
                && (old(self).max_parent_depth matches Some(limit) && old(self).queue@[0].depth
                > limit) {
                r is None
            } else {
                r == Some(old(self).queue@[0])
            },
    {
        let node = match self.queue.pop_front() {
            Some(n) => n,
            None => return None,
        };
        if self.mode == StaticEmitMode::FailuresOnly {
            match self.max_parent_depth {
                Some(limit) => {
                    if node.depth > limit {
                        return None;
                    }
                },
                None => {},
            }
        }
        Some(node)
    }

    /// What to do with import `dll` of `node`: skip an API-set stub; take a
    /// direct import of the target that was seen loaded as found; else resolve it.
    pub fn import_action(&self, node: &WalkNode, dll: &str) -> (r: ImportAction)
        ensures
            crate::snaps::api_set_dll(dll@) ==> r == ImportAction::SkipApiSet,
            !crate::snaps::api_set_dll(dll@) && node.depth == 0 && self.runtime_loaded@.map_values(
                |k: String| k@,
            ).contains(dll@) ==> r == ImportAction::RuntimeObserved,
            !crate::snaps::api_set_dll(dll@) && !(node.depth == 0 && self.runtime_loaded@.map_values(
                |k: String| k@,
            ).contains(dll@)) ==> r == ImportAction::Resolve,
    {
        if crate::snaps::is_api_set_dll(dll) {
            return ImportAction::SkipApiSet;
        }
        if node.depth == 0 && contains_str(&self.runtime_loaded, dll) {
            return ImportAction::RuntimeObserved;
        }
        ImportAction::Resolve
    }

    /// Records how import `dll` of `node` resolved. A found DLL not visited
    /// before (by `chosen_key`, the visit key of the chosen path) is queued one
    /// level deeper; a missing or bad one is counted and considered for the
    /// first issue.
    pub fn record(
        &mut self,
        node: &WalkNode,
        dll: &str,
        resolution: crate::search::Resolution,
        chosen_key: Option<String>,
    )
        requires
            old(self).wf(),
            !crate::snaps::api_set_dll(dll@),
        ensures
            final(self).wf(),
            final(self).mode == old(self).mode,
            final(self).runtime_loaded == old(self).runtime_loaded,
            resolution.kind == ResolutionKind::Found ==> {
                &&& final(self).issues == old(self).issues
                &&& final(self).max_parent_depth == old(self).max_parent_depth
                &&& if resolution.chosen is Some && chosen_key is Some && !old(
                    self,
                ).visited@.map_values(|k: String| k@).contains(chosen_key->Some_0@) {
                    &&& final(self).visited@.map_values(|k: String| k@) == old(
                        self,
                    ).visited@.map_values(|k: String| k@).push(chosen_key->Some_0@)
                    &&& final(self).queue@.len() == old(self).queue@.len() + 1
                    &&& final(self).queue@.drop_last() == old(self).queue@
                    &&& final(self).queue@.last().image_path@ == resolution.chosen->Some_0@
                    &&& final(self).queue@.last().module_name@ == module_name_lower_of(
                        resolution.chosen->Some_0@,
                    )
                    &&& final(self).queue@.last().depth == if node.depth < u32::MAX {
                        (node.depth + 1) as u32
                    } else {
                        u32::MAX
                    }
                } else {
                    final(self).visited == old(self).visited && final(self).queue == old(
                        self,
                    ).queue
                }
            },
            resolution.kind != ResolutionKind::Found ==> {
                let d = if node.depth < u32::MAX {
                    (node.depth + 1) as u32
                } else {
                    u32::MAX
                };
                &&& final(self).issues@ == old(self).issues@.push((d, node.module_name@, dll@))
                &&& final(self).visited == old(self).visited
                &&& final(self).queue == old(self).queue
                &&& final(self).max_parent_depth == if old(self).mode
                    == StaticEmitMode::FailuresOnly && old(self).max_parent_depth is None {
                    Some(node.depth)
                } else {
                    old(self).max_parent_depth
                }
            },
    {
        let depth = node.depth.saturating_add(1);
        match resolution.kind {
            ResolutionKind::Found => {
                match (resolution.chosen, chosen_key) {
                    (Some(chosen), Some(key)) => {
                        if !contains_str(&self.visited, key.as_str()) {
                            let ghost old_visited = self.visited@;
                            self.visited.push(key);
                            proof {
                                assert(self.visited@.map_values(|k: String| k@) =~= old_visited.map_values(
                                    |k: String| k@,
                                ).push(self.visited@.last()@));
                            }
                            let module_name = module_name_lower(chosen.as_str());
                            let ghost old_queue = self.queue@;
                            self.queue.push_back(WalkNode { image_path: chosen, module_name, depth });
                            assert(self.queue@.drop_last() =~= old_queue);
                        }
                    },
                    _ => {},
                }
            },
            _ => {
                let kind = resolution.kind;
                let diagnosis = if kind == ResolutionKind::BadImage {
                    "BAD_STATIC_IMPORT_IMAGE"
                } else {
                    "MISSING_STATIC_IMPORT"
                };
                let issue = FirstIssue {
                    module: node.module_name.clone(),
                    via: node.module_name.clone(),
                    depth,
                    dll: dll.to_owned(),
                    diagnosis,
                    kind,
                    candidates: resolution.candidates,
                };
                let ghost key = issue.key();
                let ghost old_first = self.first_issue;
                let ghost old_issues = self.issues@;
                consider_first_issue(&mut self.first_issue, issue);
                self.missing = self.missing.saturating_add(1);
                self.issues = Ghost(self.issues@.push(key));
                if self.mode == StaticEmitMode::FailuresOnly && self.max_parent_depth.is_none() {
                    self.max_parent_depth = Some(node.depth);
                }
                proof {
                    let iss = self.issues@;
                    assert(iss.last() == key);
                    assert(self.first_issue is Some);
                    assert(self.missing == if iss.len() <= usize::MAX {
                        iss.len() as int
                    } else {
                        usize::MAX as int
                    });
                    let ghost new_first = self.first_issue;
                    match new_first {
                        Some(f) => {
                            match old_first {
                                None => {
                                    assert(old_issues.len() == 0);
                                    assert(iss[0] == key);
                                    assert(iss.contains(f.key()));
                                    lemma_key_lt_irreflexive(key);
                                },
                                Some(e) => {
                                    if issue_key_lt(key, e.key()) {
                                        assert forall|i: int| 0 <= i < iss.len() implies !issue_key_lt(
                                            #[trigger] iss[i],
                                            key,
                                        ) by {
                                            if i < old_issues.len() {
                                                assert(iss[i] == old_issues[i]);
                                                assert(!issue_key_lt(old_issues[i], e.key()));
                                                lemma_key_lt_transitive_neg(old_issues[i], key, e.key());
                                            } else {
                                                lemma_key_lt_irreflexive(key);
                                            }
                                        }
                                        assert(iss[iss.len() - 1] == key);
                                        assert(iss.contains(f.key()));
                                    } else {
                                        assert forall|i: int| 0 <= i < iss.len() implies !issue_key_lt(
                                            #[trigger] iss[i],
                                            e.key(),
                                        ) by {
                                            if i < old_issues.len() {
                                                assert(iss[i] == old_issues[i]);
                                            }
                                        }
                                        let j = choose|j: int| 0 <= j < old_issues.len() && old_issues[j] == e.key();
                                        assert(iss[j] == e.key());
                                        assert(iss.contains(f.key()));
                                    }
                                },
                            }
                        },
                        None => {},
                    }
                }
            },
        }
    }

    /// The report of the finished walk.
    pub fn finish(self, safedll: bool) -> (r: StaticReport)
        requires
            self.wf(),
        ensures
            r.missing_or_bad == self.missing,
            r.first_issue == self.first_issue,
            r.safedll == safedll,
    {
        StaticReport { missing_or_bad: self.missing, first_issue: self.first_issue, safedll }
    }
}

proof fn lemma_key_lt_irreflexive(a: IssueKey)
    ensures
        !issue_key_lt(a, a),
{
    crate::order::lemma_lt_irreflexive(a.1);
    crate::order::lemma_lt_irreflexive(a.2);
}

/// Where `x` does not sort before `e` and `k` sorts before `e`, `x` does not
/// sort before `k`.
proof fn lemma_key_lt_transitive_neg(x: IssueKey, k: IssueKey, e: IssueKey)
    requires
        !issue_key_lt(x, e),
        issue_key_lt(k, e),
    ensures
        !issue_key_lt(x, k),
{
    if issue_key_lt(x, k) {
        if x.0 == k.0 && k.0 == e.0 {
            if seq_lt(x.1, k.1) && seq_lt(k.1, e.1) {
                crate::order::lemma_lt_transitive(x.1, k.1, e.1);
            } else if seq_lt(x.1, k.1) {
            } else if seq_lt(k.1, e.1) {
            } else {
                crate::order::lemma_lt_transitive(x.2, k.2, e.2);
            }
        }
    }
}

fn contains_str(v: &Vec<String>, s: &str) -> (r: bool)
    ensures
        r == v@.map_values(|k: String| k@).contains(s@),
{
    let mut i: usize = 0;
    while i < v.len()
        invariant
            i <= v.len(),
            forall|k: int| 0 <= k < i ==> v@[k]@ != s@,
        decreases v.len() - i,
    {
        if str_eq(v[i].as_str(), s) {
            assert(v@.map_values(|k: String| k@)[i as int] == s@);
            return true;
        }
        i += 1;
    }
    proof {
        let m = v@.map_values(|k: String| k@);
        if m.contains(s@) {
            let k = choose|k: int| 0 <= k < m.len() && m[k] == s@;
            assert(v@[k]@ == s@);
        }
    }
    false
}

} // verus!

verus! {

/// The first issue sorts no later than any issue found: in particular a
/// direct import's failure (depth 1) always wins over a transitive one.
pub proof fn lemma_first_issue_least(w: &StaticWalk, i: int)
    requires
        w.wf(),
        0 <= i < w.issues@.len(),
    ensures
        w.first_issue is Some,
        w.first_issue->Some_0.depth <= w.issues@[i].0,
        !issue_key_lt(w.issues@[i], w.first_issue->Some_0.key()),
{
    assert(!issue_key_lt(w.issues@[i], w.first_issue->Some_0.key()));
}

/// The lowercase names of the modules a run loaded, in load order.
pub fn runtime_loaded_names(outcome: &RunOutcome) -> (r: Vec<String>)
    ensures
        r@.map_values(|s: String| s@) == outcome.loaded_modules@.map_values(
            |m: crate::debug_run::LoadedModule| crate::text::lower_seq(m.dll_name@),
        ),
{
    let mods = &outcome.loaded_modules;
    let mut out: Vec<String> = Vec::new();
    let mut i: usize = 0;
    while i < mods.len()
        invariant
            i <= mods@.len(),
            out@.map_values(|s: String| s@) == mods@.subrange(0, i as int).map_values(
                |m: crate::debug_run::LoadedModule| crate::text::lower_seq(m.dll_name@),
            ),
        decreases mods@.len() - i,
    {
        let lower = crate::text::lower_chars(&chars_of(mods[i].dll_name.as_str()));
        let ghost before = out@;
        out.push(crate::text::string_of(&lower));
        proof {
            assert(out@.map_values(|s: String| s@) =~= before.map_values(|s: String| s@).push(
                lower@,
            ));
            assert(mods@.subrange(0, i + 1).map_values(
                |m: crate::debug_run::LoadedModule| crate::text::lower_seq(m.dll_name@),
            ) =~= mods@.subrange(0, i as int).map_values(
                |m: crate::debug_run::LoadedModule| crate::text::lower_seq(m.dll_name@),
            ).push(crate::text::lower_seq(mods@[i as int].dll_name@)));
        }
        i += 1;
    }
    proof {
        assert(mods@.subrange(0, mods@.len() as int) == mods@);
    }
    out
}

} // verus!

verus! {

/// The exit code when the run itself could not be carried out (the target
/// could not be started, the debug loop failed, loader snaps could not be
/// enabled): 21, or 10 in test mode.
pub fn engine_error_exit_code(test_mode: bool) -> (r: i32)
    ensures
        r == if test_mode { 10i32 } else { 21i32 },
{
    if test_mode {
        10
    } else {
        21
    }
}

/// What to do after the first run attempt with loader snaps asked for.
#[derive(Clone, Copy, Debug, PartialEq, Eq, Structural)]
pub enum SnapsStep {
    /// Use the first run as it is.
    Done,
    /// Writing the PEB flag failed with this code: enable loader snaps in the
    /// image's IFEO key and run the target again without the PEB patch.
    FallBackToIfeo(u32),
}

/// The step after the first run: fall back to the IFEO key exactly when
/// loader snaps were asked for and the PEB patch failed.
pub fn snaps_step(loader_snaps: bool, first: &Result<RunOutcome, crate::debug_run::RunError>) -> (r: SnapsStep)
    ensures
        r == match first {
            Err(crate::debug_run::RunError::PebLoaderSnapsEnableFailed(c)) if loader_snaps => SnapsStep::FallBackToIfeo(*c),
            _ => SnapsStep::Done,
        },
{
    if !loader_snaps {
        return SnapsStep::Done;
    }
    match first {
        Err(crate::debug_run::RunError::PebLoaderSnapsEnableFailed(c)) => SnapsStep::FallBackToIfeo(*c),
        _ => SnapsStep::Done,
    }
}

/// What the run command does with a finished run.
pub struct RunConclusion {
    /// The tool's exit code.
    pub exit_code: i32,
    /// Report the first static issue.
    pub report_static: bool,
    /// Report the dynamic-missing finding (with its search paths).
    pub report_dynamic: bool,
    /// Print the single success line.
    pub print_success: bool,
    /// Print the `SUMMARY` line.
    pub print_summary: bool,
    /// Print the `LWTEST` lines of test mode.
    pub print_lwtest: bool,
    /// The count of missing or bad DLLs that `SUMMARY` reports.
    pub missing_or_bad: usize,
    /// In test mode, the missing DLL that `LWTEST:RESULT` names.
    pub lwtest_name: Option<String>,
}

/// The number of missing or bad imports of a static report, 0 without one.
pub open spec fn static_count(s: Option<&StaticReport>) -> usize {
    match s {
        Some(r) => r.missing_or_bad,
        None => 0,
    }
}

/// A dynamic failure counts: loader snaps were on, the scan found one, and
/// the static walk found nothing.
pub open spec fn dynamic_counts(
    s: Option<&StaticReport>,
    dynamic: Option<&crate::snaps::DynamicMissing>,
    loader_snaps: bool,
) -> bool {
    loader_snaps && dynamic is Some && static_count(s) == 0
}

/// The name of the missing DLL in test mode: from the first static issue
/// (its fixture basename, else its name lowercased), else from a dynamic
/// finding that names a fixture.
pub open spec fn lwtest_name_of(
    s: Option<&StaticReport>,
    dynamic: Option<&crate::snaps::DynamicMissing>,
) -> Option<Seq<char>> {
    match s {
        Some(r) if r.first_issue is Some => match crate::snaps::fixture_basename(
            r.first_issue->Some_0.dll@,
        ) {
            Some(n) => Some(n),
            None => Some(crate::text::lower_seq(r.first_issue->Some_0.dll@)),
        },
        _ => match dynamic {
            Some(d) if crate::snaps::lwtest_name(d.dll@) => Some(d.dll@),
            _ => None,
        },
    }
}

/// Combines the run's outcome, the static report (where the walk ran) and
/// the dynamic-missing scan (`dynamic`, its finding if any) into what the
/// run command reports and its exit code. A dynamic finding counts only
/// with loader snaps on and no static issue, and then as one failure. In
/// test mode nothing is reported but the `LWTEST` lines, and the exit code
/// is the test-mode one.
pub fn conclude_run(
    outcome: &RunOutcome,
    static_report: Option<&StaticReport>,
    dynamic: Option<&crate::snaps::DynamicMissing>,
    loader_snaps: bool,
    verbose: bool,
    test_mode: bool,
) -> (r: RunConclusion)
    ensures
        r.report_static == (!test_mode && (static_report matches Some(s) && s.first_issue is Some)),
        r.report_dynamic == (!test_mode && dynamic_counts(static_report, dynamic, loader_snaps)),
        r.missing_or_bad == if r.report_dynamic {
            1
        } else {
            static_count(static_report)
        },
        test_mode ==> r.exit_code == test_exit_code_of(
            outcome,
            lwtest_name_of(static_report, dynamic) is Some || static_count(static_report) > 0
                || dynamic_counts(static_report, dynamic, loader_snaps) || trigger_of(outcome)
                == Some(Confidence::High),
        ),
        !test_mode ==> r.exit_code == exit_code_of(r.missing_or_bad, outcome),
        r.print_success == (!test_mode && !verbose && r.exit_code == 0),
        r.print_summary == (!test_mode && verbose),
        r.print_lwtest == test_mode,
        opt_string_view(&r.lwtest_name) == if test_mode {
            lwtest_name_of(static_report, dynamic)
        } else {
            None
        },
{
    let count = match static_report {
        Some(s) => s.missing_or_bad,
        None => 0,
    };
    let counts_dynamic = loader_snaps && dynamic.is_some() && count == 0;
    let report_static = !test_mode && match static_report {
        Some(s) => s.first_issue.is_some(),
        None => false,
    };
    let report_dynamic = !test_mode && counts_dynamic;
    let missing_or_bad = if report_dynamic {
        1
    } else {
        count
    };
    let name = lwtest_name_exec(static_report, dynamic);
    let exit_code = if test_mode {
        let loader_exception = static_trigger(outcome) == Some(Confidence::High);
        let failed = name.is_some() || count > 0 || counts_dynamic || loader_exception;
        test_mode_exit_code(outcome, failed)
    } else {
        run_exit_code(missing_or_bad, outcome)
    };
    RunConclusion {
        exit_code,
        report_static,
        report_dynamic,
        print_success: !test_mode && !verbose && exit_code == 0,
        print_summary: !test_mode && verbose,
        print_lwtest: test_mode,
        missing_or_bad,
        lwtest_name: if test_mode {
            name
        } else {
            None
        },
    }
}

/// The view of an optional string.
pub open spec fn opt_string_view(o: &Option<String>) -> Option<Seq<char>> {
    match o {
        Some(s) => Some(s@),
        None => None,
    }
}

fn lwtest_name_exec(
    static_report: Option<&StaticReport>,
    dynamic: Option<&crate::snaps::DynamicMissing>,
) -> (r: Option<String>)
    ensures
        opt_string_view(&r) == lwtest_name_of(static_report, dynamic),
{
    match static_report {
        Some(s) => match &s.first_issue {
            Some(fi) => {
                return match crate::snaps::normalize_dll_basename(fi.dll.as_str()) {
                    Some(n) => Some(n),
                    None => Some(
                        crate::text::string_of(&crate::text::lower_chars(&chars_of(fi.dll.as_str()))),
                    ),
                };
            },
            None => {},
        },
        None => {},
    }
    match dynamic {
        Some(d) => {
            if crate::text::starts_with_text(&chars_of(d.dll.as_str()), "lwtest_") {
                Some(d.dll.clone())
            } else {
                None
            }
        },
        None => None,
    }
}

} // verus!
