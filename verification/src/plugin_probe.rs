//! Verdicts on plug-ins that were first loaded in a throwaway process: how a
//! loader's end is read, what the user is told, and the cache that keeps
//! each verdict until the plug-in changes on disk.

use vstd::prelude::*;
use crate::text::{decimal, push_decimal, push_signed_decimal, signed_decimal, str_eq};

verus! {

/// Seconds a loader may take before it is stopped.
pub const PROBE_TIMEOUT_SECS: u64 = 10;

/// What the probe found.
#[derive(Debug, PartialEq, Eq)]
pub enum ProbeOutcome {
    /// Loaded and instantiated cleanly.
    Loaded,
    /// The loader died; carries what is known of how.
    Crashed { detail: String },
    /// The loader was still running when the timeout expired.
    TimedOut,
    /// The probe itself could not run; not the plug-in's fault.
    ProbeUnavailable { detail: String },
}

/// A probe outcome by the characters of its detail.
pub enum ProbeOutcomeView {
    Loaded,
    Crashed { detail: Seq<char> },
    TimedOut,
    ProbeUnavailable { detail: Seq<char> },
}

impl View for ProbeOutcome {
    type V = ProbeOutcomeView;

    open spec fn view(&self) -> ProbeOutcomeView {
        match self {
            ProbeOutcome::Loaded => ProbeOutcomeView::Loaded,
            ProbeOutcome::Crashed { detail } => ProbeOutcomeView::Crashed { detail: detail@ },
            ProbeOutcome::TimedOut => ProbeOutcomeView::TimedOut,
            ProbeOutcome::ProbeUnavailable { detail } => ProbeOutcomeView::ProbeUnavailable { detail: detail@ },
        }
    }
}

impl Clone for ProbeOutcome {
    fn clone(&self) -> (r: Self)
        ensures
            r@ == self@,
    {
        match self {
            ProbeOutcome::Loaded => ProbeOutcome::Loaded,
            ProbeOutcome::Crashed { detail } => ProbeOutcome::Crashed { detail: detail.clone() },
            ProbeOutcome::TimedOut => ProbeOutcome::TimedOut,
            ProbeOutcome::ProbeUnavailable { detail } => ProbeOutcome::ProbeUnavailable { detail: detail.clone() },
        }
    }
}

/// Only a clean load, or a probe that could not run, lets a plug-in in.
pub open spec fn safe_to_load_spec(o: ProbeOutcomeView) -> bool {
    o is Loaded || o is ProbeUnavailable
}

/// The sentence shown to the user, naming the plug-in and what to do; none
/// when the plug-in is let in.
pub open spec fn probe_message_spec(o: ProbeOutcomeView, plugin_name: Seq<char>) -> Option<Seq<char>> {
    match o {
        ProbeOutcomeView::Loaded | ProbeOutcomeView::ProbeUnavailable { .. } => None,
        ProbeOutcomeView::Crashed { detail } => Some(
            plugin_name
                + " crashed while loading, so it has been switched off to keep your project open. Reinstall it or update it, then re-enable it in the plug-in manager. ("@
                + detail + ")"@,
        ),
        ProbeOutcomeView::TimedOut => Some(
            plugin_name + " did not finish loading after "@ + decimal(PROBE_TIMEOUT_SECS as nat)
                + " seconds, so it has been switched off to keep the DAW responsive. It may be waiting for a licence check. Re-enable it in the plug-in manager."@,
        ),
    }
}

impl ProbeOutcome {
    /// Whether the plug-in may be loaded in this process.
    pub fn is_safe_to_load(&self) -> (r: bool)
        ensures
            r == safe_to_load_spec(self@),
    {
        match self {
            ProbeOutcome::Loaded | ProbeOutcome::ProbeUnavailable { .. } => true,
            _ => false,
        }
    }

    /// The sentence shown to the user about a refused plug-in.
    pub fn message(&self, plugin_name: &str) -> (r: Option<String>)
        ensures
            match probe_message_spec(self@, plugin_name@) {
                Some(m) => r is Some && r->0@ == m,
                None => r is None,
            },
    {
        match self {
            ProbeOutcome::Loaded | ProbeOutcome::ProbeUnavailable { .. } => None,
            ProbeOutcome::Crashed { detail } => {
                let mut s = String::from_str(plugin_name);
                s.append(
                    " crashed while loading, so it has been switched off to keep your project open. Reinstall it or update it, then re-enable it in the plug-in manager. (",
                );
                s.append(detail.as_str());
                s.append(")");
                Some(s)
            },
            ProbeOutcome::TimedOut => {
                let mut s = String::from_str(plugin_name);
                s.append(" did not finish loading after ");
                push_decimal(&mut s, PROBE_TIMEOUT_SECS);
                s.append(
                    " seconds, so it has been switched off to keep the DAW responsive. It may be waiting for a licence check. Re-enable it in the plug-in manager.",
                );
                Some(s)
            },
        }
    }
}

/// How a loader finished, as its supervisor sees it.
#[derive(Debug, Clone, Copy, PartialEq, Eq, Structural)]
pub enum ChildResult {
    ExitedOk,
    ExitedWithCode(i32),
    KilledBySignal,
    StillRunning,
}

/// The verdict on each way a loader can end: a clean exit loads; exit code
/// 1 is the loader's own refusal; any other code or a signal is a crash;
/// a loader still running timed out.
pub open spec fn classify_spec(result: ChildResult) -> ProbeOutcomeView {
    match result {
        ChildResult::ExitedOk => ProbeOutcomeView::Loaded,
        ChildResult::ExitedWithCode(code) => if code == 1 {
            ProbeOutcomeView::Crashed { detail: "the plug-in reported that it could not be loaded"@ }
        } else {
            ProbeOutcomeView::Crashed { detail: "the loader process exited with code "@ + signed_decimal(code as int) }
        },
        ChildResult::KilledBySignal => ProbeOutcomeView::Crashed {
            detail: "the loader process was killed, which usually means the plug-in crashed"@,
        },
        ChildResult::StillRunning => ProbeOutcomeView::TimedOut,
    }
}

/// Turns what happened to the loader into a verdict.
pub fn classify(result: ChildResult) -> (o: ProbeOutcome)
    ensures
        o@ == classify_spec(result),
{
    match result {
        ChildResult::ExitedOk => ProbeOutcome::Loaded,
        ChildResult::ExitedWithCode(code) => {
            if code == 1 {
                ProbeOutcome::Crashed { detail: String::from_str("the plug-in reported that it could not be loaded") }
            } else {
                let mut detail = String::from_str("the loader process exited with code ");
                push_signed_decimal(&mut detail, code as i64);
                ProbeOutcome::Crashed { detail }
            }
        },
        ChildResult::KilledBySignal => ProbeOutcome::Crashed {
            detail: String::from_str("the loader process was killed, which usually means the plug-in crashed"),
        },
        ChildResult::StillRunning => ProbeOutcome::TimedOut,
    }
}

/// How a finished loader ended, from its exit code: none means a signal.
pub fn result_from_code(code: Option<i32>) -> (r: ChildResult)
    ensures
        r == match code {
            Some(c) => if c == 0 { ChildResult::ExitedOk } else { ChildResult::ExitedWithCode(c) },
            None => ChildResult::KilledBySignal,
        },
{
    match code {
        Some(c) => if c == 0 { ChildResult::ExitedOk } else { ChildResult::ExitedWithCode(c) },
        None => ChildResult::KilledBySignal,
    }
}

/// What one look at a running loader found.
pub enum ChildPoll {
    /// It has ended, with this exit code if it had one.
    Exited(Option<i32>),
    /// It is still running.
    Running,
    /// It could not be waited on; carries the error's text.
    Lost(String),
}

/// What the supervisor does next.
pub enum SuperviseStep {
    /// Stop watching, with this verdict.
    Finish(ProbeOutcome),
    /// Kill the loader, reap it, and give this verdict.
    KillThenFinish(ProbeOutcome),
    /// Sleep a moment and look again.
    Wait,
}

/// One round of supervision: an ended loader is classified, one past the
/// deadline is killed as timed out, a lost one makes the probe
/// unavailable, and otherwise the supervisor waits.
pub fn supervise_step(poll: ChildPoll, past_deadline: bool) -> (s: SuperviseStep)
    ensures
        match poll {
            ChildPoll::Exited(code) => s matches SuperviseStep::Finish(o)
                && o@ == classify_spec(match code {
                    Some(c) => if c == 0 { ChildResult::ExitedOk } else { ChildResult::ExitedWithCode(c) },
                    None => ChildResult::KilledBySignal,
                }),
            ChildPoll::Running => if past_deadline {
                s matches SuperviseStep::KillThenFinish(o) && o@ == ProbeOutcomeView::TimedOut
            } else {
                s is Wait
            },
            ChildPoll::Lost(e) => s matches SuperviseStep::Finish(o)
                && o@ == (ProbeOutcomeView::ProbeUnavailable { detail: "lost track of the loader process: "@ + e@ }),
        },
{
    match poll {
        ChildPoll::Exited(code) => SuperviseStep::Finish(classify(result_from_code(code))),
        ChildPoll::Running => {
            if past_deadline {
                SuperviseStep::KillThenFinish(classify(ChildResult::StillRunning))
            } else {
                SuperviseStep::Wait
            }
        },
        ChildPoll::Lost(e) => {
            let mut detail = String::from_str("lost track of the loader process: ");
            detail.append(e.as_str());
            SuperviseStep::Finish(ProbeOutcome::ProbeUnavailable { detail })
        },
    }
}

/// The key a plug-in's verdict is kept under: its path, size and
/// modification time (seconds), so that an update asks again.
pub open spec fn probe_key_spec(path: Seq<char>, size: u64, modified_secs: u64) -> Seq<char> {
    path + "|"@ + decimal(size as nat) + "|"@ + decimal(modified_secs as nat)
}

/// The cache key for a plug-in file.
pub fn probe_key(path: &str, size: u64, modified_secs: u64) -> (k: String)
    ensures
        k@ == probe_key_spec(path@, size, modified_secs),
{
    let mut k = String::from_str(path);
    k.append("|");
    push_decimal(&mut k, size);
    k.append("|");
    push_decimal(&mut k, modified_secs);
    k
}

/// The verdicts that a list of keyed entries records, later entries over
/// earlier ones.
pub open spec fn entries_map(s: Seq<(String, ProbeOutcome)>) -> Map<Seq<char>, ProbeOutcomeView>
    decreases s.len(),
{
    if s.len() == 0 {
        Map::empty()
    } else {
        entries_map(s.drop_last()).insert(s.last().0@, s.last().1@)
    }
}

/// No key occurs twice.
pub open spec fn keys_unique(s: Seq<(String, ProbeOutcome)>) -> bool {
    forall|a: int, b: int| 0 <= a < b < s.len() ==> (#[trigger] s[a]).0@ != (#[trigger] s[b]).0@
}

proof fn lemma_entries_map_has(s: Seq<(String, ProbeOutcome)>, k: Seq<char>)
    ensures
        entries_map(s).contains_key(k) <==> exists|i: int| 0 <= i < s.len() && (#[trigger] s[i]).0@ == k,
    decreases s.len(),
{
    if s.len() > 0 {
        let d = s.drop_last();
        lemma_entries_map_has(d, k);
        if entries_map(s).contains_key(k) {
            if s.last().0@ != k {
                let i = choose|i: int| 0 <= i < d.len() && (#[trigger] d[i]).0@ == k;
                assert(s[i] == d[i]);
            } else {
                assert(s[s.len() - 1].0@ == k);
            }
        }
        if exists|i: int| 0 <= i < s.len() && (#[trigger] s[i]).0@ == k {
            let i = choose|i: int| 0 <= i < s.len() && (#[trigger] s[i]).0@ == k;
            if i < s.len() - 1 {
                assert(d[i] == s[i]);
            }
        }
    }
}

proof fn lemma_entries_map_at(s: Seq<(String, ProbeOutcome)>, i: int)
    requires
        keys_unique(s),
        0 <= i < s.len(),
    ensures
        entries_map(s).contains_key(s[i].0@),
        entries_map(s)[s[i].0@] == s[i].1@,
    decreases s.len(),
{
    let d = s.drop_last();
    if i < s.len() - 1 {
        assert(d[i] == s[i]);
        assert(keys_unique(d)) by {
            assert forall|a: int, b: int| 0 <= a < b < d.len() implies (#[trigger] d[a]).0@ != (#[trigger] d[b]).0@ by {
                assert(d[a] == s[a] && d[b] == s[b]);
            }
        }
        lemma_entries_map_at(d, i);
        assert(s[i].0@ != s[s.len() - 1].0@);
    }
}

/// Verdicts already known, keyed by `probe_key`.
#[derive(Debug)]
pub struct ProbeCache {
    entries: Vec<(String, ProbeOutcome)>,
}

impl ProbeCache {
    /// A key is recorded at most once.
    #[verifier::type_invariant]
    spec fn unique_keys(self) -> bool {
        keys_unique(self.entries@)
    }
}

impl View for ProbeCache {
    type V = Map<Seq<char>, ProbeOutcomeView>;

    closed spec fn view(&self) -> Map<Seq<char>, ProbeOutcomeView> {
        entries_map(self.entries@)
    }
}

impl ProbeCache {
    /// An empty cache.
    pub fn new() -> (c: ProbeCache)
        ensures
            c@ == Map::<Seq<char>, ProbeOutcomeView>::empty(),
    {
        ProbeCache { entries: Vec::new() }
    }

    fn position(&self, key: &str) -> (r: Option<usize>)
        ensures
            match r {
                Some(i) => i < self.entries@.len() && self.entries@[i as int].0@ == key@,
                None => forall|i: int| 0 <= i < self.entries@.len() ==> (#[trigger] self.entries@[i]).0@ != key@,
            },
    {
        let mut i: usize = 0;
        while i < self.entries.len()
            invariant
                0 <= i <= self.entries@.len(),
                forall|j: int| 0 <= j < i ==> (#[trigger] self.entries@[j]).0@ != key@,
            decreases self.entries@.len() - i,
        {
            if str_eq(self.entries[i].0.as_str(), key) {
                return Some(i);
            }
            i = i + 1;
        }
        None
    }

    /// The verdict recorded under `key`, if any.
    pub fn get(&self, key: &str) -> (r: Option<&ProbeOutcome>)
        ensures
            match r {
                Some(o) => self@.contains_key(key@) && o@ == self@[key@],
                None => !self@.contains_key(key@),
            },
    {
        proof {
            use_type_invariant(self);
            lemma_entries_map_has(self.entries@, key@);
        }
        match self.position(key) {
            Some(i) => {
                proof {
                    lemma_entries_map_at(self.entries@, i as int);
                }
                Some(&self.entries[i].1)
            },
            None => None,
        }
    }

    /// Records `outcome` under `key`, replacing what was there.
    pub fn remember(&mut self, key: &str, outcome: ProbeOutcome)
        ensures
            final(self)@ == old(self)@.insert(key@, outcome@),
    {
        proof {
            use_type_invariant(&*self);
        }
        let ghost before = self.entries@;
        let found = self.position(key);
        let mut entries: Vec<(String, ProbeOutcome)> = Vec::new();
        std::mem::swap(&mut entries, &mut self.entries);
        let ghost outcome_view = outcome@;
        match found {
            Some(i) => {
                entries.set(i, (String::from_str(key), outcome));
                proof {
                    let after = entries@;
                    assert(keys_unique(after)) by {
                        assert forall|a: int, b: int| 0 <= a < b < after.len() implies (#[trigger] after[a]).0@ != (#[trigger] after[b]).0@ by {
                            assert(before[a].0@ != before[b].0@);
                        }
                    }
                    assert(after[i as int].0@ == key@);
                    assert(before[i as int].0@ == key@);
                    assert forall|k: Seq<char>| #[trigger] entries_map(after).contains_key(k) <==> entries_map(before).insert(key@, outcome_view).contains_key(k) by {
                        lemma_entries_map_has(after, k);
                        lemma_entries_map_has(before, k);
                        if k == key@ {
                            assert(after[i as int].0@ == k);
                            assert(before[i as int].0@ == k);
                        }
                        if exists|j: int| 0 <= j < before.len() && (#[trigger] before[j]).0@ == k {
                            let j = choose|j: int| 0 <= j < before.len() && (#[trigger] before[j]).0@ == k;
                            if j != i {
                                assert(after[j] == before[j]);
                            }
                        }
                        if exists|j: int| 0 <= j < after.len() && (#[trigger] after[j]).0@ == k {
                            let j = choose|j: int| 0 <= j < after.len() && (#[trigger] after[j]).0@ == k;
                            if j != i {
                                assert(after[j] == before[j]);
                            }
                        }
                    }
                    assert forall|k: Seq<char>| #[trigger] entries_map(after).contains_key(k) implies entries_map(after)[k] == entries_map(before).insert(key@, outcome_view)[k] by {
                        lemma_entries_map_has(after, k);
                        let j = choose|j: int| 0 <= j < after.len() && (#[trigger] after[j]).0@ == k;
                        lemma_entries_map_at(after, j);
                        if j != i {
                            assert(after[j] == before[j]);
                            lemma_entries_map_at(before, j);
                        }
                    }
                    assert(entries_map(after) =~= entries_map(before).insert(key@, outcome_view));
                }
            },
            None => {
                entries.push((String::from_str(key), outcome));
                proof {
                    let after = entries@;
                    assert(after.drop_last() =~= before);
                    assert(keys_unique(after)) by {
                        assert forall|a: int, b: int| 0 <= a < b < after.len() implies (#[trigger] after[a]).0@ != (#[trigger] after[b]).0@ by {
                            if b < after.len() - 1 {
                                assert(before[a].0@ != before[b].0@);
                            } else {
                                assert(before[a].0@ != key@);
                            }
                        }
                    }
                }
            },
        }
        self.entries = entries;
    }

    /// Forgets the verdict under `key`, so the plug-in is tried again.
    pub fn forget(&mut self, key: &str)
        ensures
            final(self)@ == old(self)@.remove(key@),
    {
        proof {
            use_type_invariant(&*self);
        }
        let ghost before = self.entries@;
        match self.position(key) {
            Some(i) => {
                let mut entries: Vec<(String, ProbeOutcome)> = Vec::new();
                std::mem::swap(&mut entries, &mut self.entries);
                entries.remove(i);
                proof {
                    let after = entries@;
                    assert(keys_unique(after)) by {
                        assert forall|a: int, b: int| 0 <= a < b < after.len() implies (#[trigger] after[a]).0@ != (#[trigger] after[b]).0@ by {
                            let a0 = if a < i { a } else { a + 1 };
                            let b0 = if b < i { b } else { b + 1 };
                            assert(after[a] == before[a0] && after[b] == before[b0]);
                            assert(before[a0].0@ != before[b0].0@);
                        }
                    }
                    assert forall|k: Seq<char>| #[trigger] entries_map(after).contains_key(k) <==> entries_map(before).remove(key@).contains_key(k) by {
                        lemma_entries_map_has(after, k);
                        lemma_entries_map_has(before, k);
                        if exists|j: int| 0 <= j < before.len() && (#[trigger] before[j]).0@ == k {
                            let j = choose|j: int| 0 <= j < before.len() && (#[trigger] before[j]).0@ == k;
                            if j < i {
                                assert(after[j] == before[j]);
                            } else if j > i {
                                assert(after[j - 1] == before[j]);
                            }
                        }
                        if exists|j: int| 0 <= j < after.len() && (#[trigger] after[j]).0@ == k {
                            let j = choose|j: int| 0 <= j < after.len() && (#[trigger] after[j]).0@ == k;
                            let j0 = if j < i { j } else { j + 1 };
                            assert(after[j] == before[j0]);
                            assert(before[j0].0@ != before[i as int].0@);
                        }
                    }
                    assert forall|k: Seq<char>| #[trigger] entries_map(after).contains_key(k) implies entries_map(after)[k] == entries_map(before).remove(key@)[k] by {
                        lemma_entries_map_has(after, k);
                        let j = choose|j: int| 0 <= j < after.len() && (#[trigger] after[j]).0@ == k;
                        lemma_entries_map_at(after, j);
                        let j0 = if j < i { j } else { j + 1 };
                        assert(after[j] == before[j0]);
                        lemma_entries_map_at(before, j0);
                    }
                    assert(entries_map(after) =~= entries_map(before).remove(key@));
                }
                self.entries = entries;
            },
            None => {
                proof {
                    lemma_entries_map_has(before, key@);
                    assert(entries_map(before).remove(key@) =~= entries_map(before));
                }
            },
        }
    }
}

/// Only a clean exit lets a plug-in load: every other end of the loader
/// refuses it.
pub proof fn lemma_only_a_clean_exit_loads(result: ChildResult)
    ensures
        safe_to_load_spec(classify_spec(result)) <==> result == ChildResult::ExitedOk,
{
}

/// A refused plug-in is always explained to the user, in a sentence that
/// starts with its name; a plug-in that is let in gets no sentence.
pub proof fn lemma_refusals_are_explained(o: ProbeOutcomeView, plugin_name: Seq<char>)
    ensures
        safe_to_load_spec(o) <==> probe_message_spec(o, plugin_name) is None,
        probe_message_spec(o, plugin_name) matches Some(m) ==> m.len() >= plugin_name.len()
            && m.subrange(0, plugin_name.len() as int) == plugin_name,
{
    match probe_message_spec(o, plugin_name) {
        Some(m) => {
            match o {
                ProbeOutcomeView::Crashed { detail } => {
                    let rest = " crashed while loading, so it has been switched off to keep your project open. Reinstall it or update it, then re-enable it in the plug-in manager. ("@
                        + detail + ")"@;
                    assert(m =~= plugin_name + rest);
                },
                _ => {
                    let rest = " did not finish loading after "@ + decimal(PROBE_TIMEOUT_SECS as nat)
                        + " seconds, so it has been switched off to keep the DAW responsive. It may be waiting for a licence check. Re-enable it in the plug-in manager."@;
                    assert(m =~= plugin_name + rest);
                },
            }
            assert(m.subrange(0, plugin_name.len() as int) =~= plugin_name);
        },
        None => {},
    }
}

/// A remembered verdict is read back until it is forgotten, and forgetting
/// touches no other plug-in's verdict.
pub proof fn lemma_cache_reads_back(
    cache: Map<Seq<char>, ProbeOutcomeView>,
    key: Seq<char>,
    other: Seq<char>,
    verdict: ProbeOutcomeView,
)
    requires
        other != key,
    ensures
        cache.insert(key, verdict).contains_key(key),
        cache.insert(key, verdict)[key] == verdict,
        !cache.insert(key, verdict).remove(key).contains_key(key),
        cache.remove(key).contains_key(other) == cache.contains_key(other),
        cache.contains_key(other) ==> cache.remove(key)[other] == cache[other],
{
}

} // verus!
