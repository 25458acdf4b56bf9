//! The per-run test database: for every known case, its most recent
//! durations and whether it last failed.
//!
//! The database is a three-level table — package, artifact, case — stored
//! as parallel vectors with unique keys at every level, so every operation
//! has an exact contract over its indices.
use vstd::prelude::*;

verus! {

/// Whether a case succeeded the last time it ran.
#[derive(Clone, Copy, Debug, PartialEq, Eq, Structural)]
pub enum CaseOutcome {
    Success,
    Failure,
}

impl CaseOutcome {
    /// The outcome of one run from its failure flag.
    pub fn from_failure(failure: bool) -> (r: Self)
        ensures
            r == if failure {
                CaseOutcome::Failure
            } else {
                CaseOutcome::Success
            },
    {
        if failure {
            Self::Failure
        } else {
            Self::Success
        }
    }

    /// Combine with another run of the same case: any failure sticks.
    pub fn combine(self, other: Self) -> (r: Self)
        ensures
            r == if self == CaseOutcome::Success {
                other
            } else {
                CaseOutcome::Failure
            },
    {
        if let Self::Success = self {
            other
        } else {
            Self::Failure
        }
    }

    /// Whether this outcome is a failure.
    pub fn failure(&self) -> (r: bool)
        ensures
            r == (*self == CaseOutcome::Failure),
    {
        matches!(self, Self::Failure)
    }
}

/// Durations are whole nanoseconds.
pub type DurationNanos = u64;

/// One recorded outcome with its nonempty list of recent durations.
#[derive(Clone, Debug, PartialEq, Eq)]
pub struct OutcomeTimings {
    pub outcome: CaseOutcome,
    pub timings: Vec<DurationNanos>,
}

/// What the database knows of one case's runs: what was read from disk,
/// and what this run has produced so far.
#[derive(Clone, Debug, PartialEq, Eq)]
pub struct TimingData {
    pub when_read: Option<OutcomeTimings>,
    pub this_run: Option<OutcomeTimings>,
}

/// At most this many recent durations are kept per case.
pub const MAX_TIMINGS_PER_CASE: usize = 3;

/// A pristine record: nothing read, nothing run.
pub fn fresh_timing_data() -> (r: TimingData)
    ensures
        r.when_read is None,
        r.this_run is None,
{
    TimingData { when_read: None, this_run: None }
}

fn clone_u64s(v: &Vec<u64>) -> (r: Vec<u64>)
    ensures
        r@ == v@,
{
    let mut out: Vec<u64> = Vec::new();
    let mut i: usize = 0;
    while i < v.len()
        invariant
            i <= v@.len(),
            out@ == v@.subrange(0, i as int),
        decreases v@.len() - i,
    {
        out.push(v[i]);
        proof {
            assert(out@ =~= v@.subrange(0, i + 1 as int));
        }
        i = i + 1;
    }
    proof {
        assert(out@ =~= v@);
    }
    out
}

/// A copy of one recorded outcome.
pub fn clone_outcome_timings(o: &OutcomeTimings) -> (r: OutcomeTimings)
    ensures
        r.outcome == o.outcome,
        r.timings@ == o.timings@,
{
    OutcomeTimings { outcome: o.outcome, timings: clone_u64s(&o.timings) }
}

/// A copy of one case record.
pub fn clone_timing_data(t: &TimingData) -> (r: TimingData)
    ensures
        timing_data_eqv(r, *t),
{
    TimingData {
        when_read: match &t.when_read {
            Some(o) => Some(clone_outcome_timings(o)),
            None => None,
        },
        this_run: match &t.this_run {
            Some(o) => Some(clone_outcome_timings(o)),
            None => None,
        },
    }
}

/// Structural equality of recorded outcomes, with durations compared as
/// sequences.
pub open spec fn outcome_timings_eqv(a: Option<OutcomeTimings>, b: Option<OutcomeTimings>) -> bool {
    match (a, b) {
        (Some(x), Some(y)) => x.outcome == y.outcome && x.timings@ == y.timings@,
        (None, None) => true,
        _ => false,
    }
}

/// Structural equality of case records.
pub open spec fn timing_data_eqv(a: TimingData, b: TimingData) -> bool {
    outcome_timings_eqv(a.when_read, b.when_read) && outcome_timings_eqv(a.this_run, b.this_run)
}

/// The duration list after appending one more: the newest values win, and
/// at most [`MAX_TIMINGS_PER_CASE`] are kept.
pub open spec fn timings_after_push(ts: Seq<u64>, t: u64) -> Seq<u64> {
    let pushed = ts.push(t);
    if pushed.len() > MAX_TIMINGS_PER_CASE as nat {
        pushed.skip(pushed.len() - MAX_TIMINGS_PER_CASE as nat)
    } else {
        pushed
    }
}

/// Append one duration, keeping only the newest few.
pub fn push_timing(timings: &mut Vec<u64>, timing: u64)
    ensures
        final(timings)@ == timings_after_push(old(timings)@, timing),
{
    timings.push(timing);
    if timings.len() > MAX_TIMINGS_PER_CASE {
        let drop_n = timings.len() - MAX_TIMINGS_PER_CASE;
        let ghost pushed = timings@;
        let mut kept: Vec<u64> = Vec::new();
        let mut i: usize = drop_n;
        while i < timings.len()
            invariant
                drop_n <= i <= timings@.len(),
                timings@ == pushed,
                kept@ == pushed.subrange(drop_n as int, i as int),
            decreases timings@.len() - i,
        {
            kept.push(timings[i]);
            proof {
                assert(kept@ =~= pushed.subrange(drop_n as int, i + 1 as int));
            }
            i = i + 1;
        }
        *timings = kept;
        proof {
            assert(timings@ =~= timings_after_push(old(timings)@, timing));
        }
    }
}

/// What the duration list of `this_run` must equal after one more run.
pub open spec fn run_timings_after(d: TimingData, timing: u64) -> Seq<u64> {
    match d.this_run {
        None => match d.when_read {
            None => seq![timing],
            Some(read) => timings_after_push(read.timings@, timing),
        },
        Some(prev) => timings_after_push(prev.timings@, timing),
    }
}

/// Record one more finished run of a case.
pub fn record_run(d: &mut TimingData, failed: bool, timing: u64)
    ensures
        outcome_timings_eqv(final(d).when_read, old(d).when_read),
        final(d).this_run matches Some(now) && now.timings@ == run_timings_after(
            *old(d),
            timing,
        ) && now.outcome == match old(d).this_run {
            None => if failed {
                CaseOutcome::Failure
            } else {
                CaseOutcome::Success
            },
            Some(prev) => if prev.outcome == CaseOutcome::Success {
                if failed {
                    CaseOutcome::Failure
                } else {
                    CaseOutcome::Success
                }
            } else {
                CaseOutcome::Failure
            },
        },
{
    let new_outcome = CaseOutcome::from_failure(failed);
    let current = d.this_run.take();
    match current {
        None => {
            let mut timings: Vec<u64> = match &d.when_read {
                None => {
                    let mut t: Vec<u64> = Vec::new();
                    t.push(timing);
                    proof {
                        assert(t@ =~= seq![timing]);
                    }
                    t
                },
                Some(read) => {
                    let mut t = clone_u64s(&read.timings);
                    push_timing(&mut t, timing);
                    t
                },
            };
            d.this_run = Some(OutcomeTimings { outcome: new_outcome, timings });
        },
        Some(prev) => {
            let mut timings = prev.timings;
            push_timing(&mut timings, timing);
            d.this_run = Some(
                OutcomeTimings { outcome: prev.outcome.combine(new_outcome), timings },
            );
        },
    }
}


/// Index of the first name equal to `target` in a list of names.
pub open spec fn name_index(names: Seq<String>, target: Seq<char>) -> Option<int>
    decreases names.len(),
{
    if names.len() == 0 {
        None
    } else if names[0]@ == target {
        Some(0)
    } else {
        match name_index(names.skip(1), target) {
            Some(j) => Some(j + 1),
            None => None,
        }
    }
}

proof fn lemma_name_index_found(names: Seq<String>, target: Seq<char>, i: int)
    requires
        0 <= i < names.len(),
        names[i]@ == target,
        forall|j: int| 0 <= j < i ==> names[j]@ != target,
    ensures
        name_index(names, target) == Some(i),
    decreases i,
{
    if i > 0 {
        lemma_name_index_found(names.skip(1), target, i - 1);
    }
}

proof fn lemma_name_index_not_found(names: Seq<String>, target: Seq<char>)
    requires
        forall|j: int| 0 <= j < names.len() ==> names[j]@ != target,
    ensures
        name_index(names, target) is None,
    decreases names.len(),
{
    if names.len() > 0 {
        lemma_name_index_not_found(names.skip(1), target);
    }
}

/// `name_index` finds a position holding the target, and only the first.
pub proof fn lemma_name_index_props(names: Seq<String>, target: Seq<char>)
    ensures
        match name_index(names, target) {
            Some(i) => 0 <= i < names.len() && names[i]@ == target,
            None => forall|j: int| 0 <= j < names.len() ==> names[j]@ != target,
        },
    decreases names.len(),
{
    if names.len() > 0 && names[0]@ != target {
        lemma_name_index_props(names.skip(1), target);
        match name_index(names.skip(1), target) {
            Some(j) => {
                assert(names.skip(1)[j] == names[j + 1]);
            },
            None => {
                assert forall|j: int| 0 <= j < names.len() implies names[j]@ != target by {
                    if j > 0 {
                        assert(names.skip(1)[j - 1] == names[j]);
                    }
                }
            },
        }
    }
}

/// Find a name in a list; returns the first index.
fn find_name(names: &Vec<String>, target: &String) -> (r: Option<usize>)
    ensures
        match r {
            Some(i) => i < names@.len() && name_index(names@, target@) == Some(i as int),
            None => name_index(names@, target@) is None,
        },
{
    let mut i: usize = 0;
    while i < names.len()
        invariant
            i <= names@.len(),
            forall|j: int| 0 <= j < i ==> names@[j]@ != target@,
        decreases names@.len() - i,
    {
        if names[i] == *target {
            proof {
                lemma_name_index_found(names@, target@, i as int);
            }
            return Some(i);
        }
        i = i + 1;
    }
    proof {
        lemma_name_index_not_found(names@, target@);
    }
    None
}

/// Find a name in a list; the first index holding it.
pub fn find_name_public(names: &Vec<String>, target: &String) -> (r: Option<usize>)
    ensures
        match r {
            Some(i) => i < names@.len() && name_index(names@, target@) == Some(i as int),
            None => name_index(names@, target@) is None,
        },
{
    find_name(names, target)
}

/// All cases of one artifact, as parallel lists: names, metadata, and
/// timing records, index by index.
#[derive(Debug, PartialEq, Eq)]
pub struct Artifact<M> {
    pub case_names: Vec<String>,
    pub case_metas: Vec<M>,
    pub case_timings: Vec<TimingData>,
}

impl<M> Artifact<M> {
    /// The three lists agree in length and case names are unique.
    pub open spec fn wf(&self) -> bool {
        &&& self.case_metas@.len() == self.case_names@.len()
        &&& self.case_timings@.len() == self.case_names@.len()
        &&& forall|i: int, j: int|
            0 <= i < j < self.case_names@.len() ==> self.case_names@[i]@
                != self.case_names@[j]@
    }

    /// An artifact with no cases.
    pub fn empty() -> (r: Self)
        ensures
            r.wf(),
            r.case_names@.len() == 0,
    {
        Artifact { case_names: Vec::new(), case_metas: Vec::new(), case_timings: Vec::new() }
    }
}

/// All artifacts of one package, as parallel lists keyed by artifact name.
#[derive(Debug, PartialEq, Eq)]
pub struct Package<M> {
    pub artifact_keys: Vec<String>,
    pub artifacts: Vec<Artifact<M>>,
}

impl<M> Package<M> {
    /// Keys are unique, lists agree, and every artifact is well formed.
    pub open spec fn wf(&self) -> bool {
        &&& self.artifacts@.len() == self.artifact_keys@.len()
        &&& forall|i: int, j: int|
            0 <= i < j < self.artifact_keys@.len() ==> self.artifact_keys@[i]@
                != self.artifact_keys@[j]@
        &&& forall|i: int| 0 <= i < self.artifacts@.len() ==> #[trigger] self.artifacts@[i].wf()
    }

    /// A package with no artifacts.
    pub fn empty() -> (r: Self)
        ensures
            r.wf(),
            r.artifact_keys@.len() == 0,
    {
        Package { artifact_keys: Vec::new(), artifacts: Vec::new() }
    }
}

/// The whole database: packages by name.
#[derive(Debug, PartialEq, Eq)]
pub struct TestDb<M> {
    pub package_names: Vec<String>,
    pub packages: Vec<Package<M>>,
}

/// The artifact stored under a package name and artifact key, if any.
pub open spec fn db_art<M>(db: TestDb<M>, p: Seq<char>, a: Seq<char>) -> Option<Artifact<M>> {
    match name_index(db.package_names@, p) {
        None => None,
        Some(i) => match name_index(db.packages@[i].artifact_keys@, a) {
            None => None,
            Some(j) => Some(db.packages@[i].artifacts@[j]),
        },
    }
}

impl<M> TestDb<M> {
    /// Package names are unique, lists agree, and every package is well
    /// formed.
    pub open spec fn wf(&self) -> bool {
        &&& self.packages@.len() == self.package_names@.len()
        &&& forall|i: int, j: int|
            0 <= i < j < self.package_names@.len() ==> self.package_names@[i]@
                != self.package_names@[j]@
        &&& forall|i: int| 0 <= i < self.packages@.len() ==> #[trigger] self.packages@[i].wf()
    }

    /// An empty database.
    pub fn new() -> (r: Self)
        ensures
            r.wf(),
            r.package_names@.len() == 0,
    {
        TestDb { package_names: Vec::new(), packages: Vec::new() }
    }
}

/// How `name_index` behaves when one more name is appended.
proof fn lemma_name_index_push(names: Seq<String>, x: String, t: Seq<char>)
    ensures
        name_index(names.push(x), t) == match name_index(names, t) {
            Some(i) => Some(i),
            None => if x@ == t {
                Some(names.len() as int)
            } else {
                None
            },
        },
    decreases names.len(),
{
    let pushed = names.push(x);
    if names.len() == 0 {
        assert(pushed[0] == x);
        if x@ == t {
            assert(name_index(pushed, t) == Some(0int));
        } else {
            assert(pushed.skip(1) =~= Seq::<String>::empty());
            assert(name_index(pushed.skip(1), t) is None);
            assert(name_index(pushed, t) is None);
        }
    } else {
        assert(pushed[0] == names[0]);
        assert(pushed.skip(1) =~= names.skip(1).push(x));
        lemma_name_index_push(names.skip(1), x, t);
        if names[0]@ == t {
            assert(name_index(pushed, t) == Some(0int));
            assert(name_index(names, t) == Some(0int));
        } else {
            assert(name_index(pushed, t) == match name_index(pushed.skip(1), t) {
                Some(j) => Some(j + 1),
                None => None,
            });
            assert(name_index(names, t) == match name_index(names.skip(1), t) {
                Some(j) => Some(j + 1),
                None => None,
            });
        }
    }
}

/// Whether the pair of a package name and artifact key appears in a list
/// of packages with their artifact keys.
pub open spec fn pair_allowed(
    existing: Seq<(String, Vec<String>)>,
    p: Seq<char>,
    a: Seq<char>,
) -> bool {
    exists|i: int, j: int|
        0 <= i < existing.len() && 0 <= j < existing[i].1@.len() && existing[i].0@ == p
            && existing[i].1@[j]@ == a
}

impl<M> TestDb<M> {
    /// Set the case list of one artifact, creating its package and the
    /// artifact itself as needed. A case that was already known keeps its
    /// recorded timings; its metadata is replaced; a case no longer listed
    /// is dropped. No other artifact changes.
    #[verifier::rlimit(60)]
    pub fn update_artifact_cases(
        &mut self,
        package_name: &String,
        artifact_key: &String,
        cases: Vec<(String, M)>,
    )
        requires
            old(self).wf(),
            forall|i: int, j: int|
                0 <= i < j < cases@.len() ==> cases@[i].0@ != cases@[j].0@,
        ensures
            final(self).wf(),
            db_art(*final(self), package_name@, artifact_key@) matches Some(art) && {
                &&& art.case_names@.len() == cases@.len()
                &&& art.case_metas@.len() == cases@.len()
                &&& art.case_timings@.len() == cases@.len()
                &&& forall|k: int|
                    0 <= k < cases@.len() ==> #[trigger] art.case_names@[k]@ == cases@[k].0@
                &&& forall|k: int|
                    0 <= k < cases@.len() ==> #[trigger] art.case_metas@[k] == cases@[k].1
                &&& forall|k: int|
                    0 <= k < cases@.len() ==> match db_art(
                        *old(self),
                        package_name@,
                        artifact_key@,
                    ) {
                        Some(oldart) => match name_index(oldart.case_names@, cases@[k].0@) {
                            Some(w) => timing_data_eqv(
                                #[trigger] art.case_timings@[k],
                                oldart.case_timings@[w],
                            ),
                            None => art.case_timings@[k].when_read is None
                                && art.case_timings@[k].this_run is None,
                        },
                        None => art.case_timings@[k].when_read is None
                            && art.case_timings@[k].this_run is None,
                    }
            },
            forall|p: Seq<char>, a: Seq<char>|
                !(p == package_name@ && a == artifact_key@) ==> db_art(*final(self), p, a)
                    == db_art(*old(self), p, a),
    {
        let pidx: usize = match find_name(&self.package_names, package_name) {
            Some(i) => i,
            None => {
                proof {
                    lemma_name_index_props(self.package_names@, package_name@);
                }
                self.package_names.push(package_name.clone());
                self.packages.push(Package::empty());
                proof {
                    lemma_name_index_found(
                        self.package_names@,
                        package_name@,
                        self.package_names@.len() - 1,
                    );
                }
                self.package_names.len() - 1
            },
        };
        proof {
            assert(name_index(self.package_names@, package_name@) == Some(pidx as int));
            assert(self.wf()) by {
                if self.package_names@.len() != old(self).package_names@.len() {
                    lemma_name_index_props(old(self).package_names@, package_name@);
                    assert(old(self).packages@.len() == old(self).package_names@.len());
                    assert(forall|i: int|
                        0 <= i < self.packages@.len() - 1 ==> self.packages@[i]
                            == old(self).packages@[i]);
                }
            }
            assert forall|q: Seq<char>| q != package_name@ implies name_index(
                self.package_names@,
                q,
            ) == name_index(old(self).package_names@, q) by {
                if self.package_names@.len() != old(self).package_names@.len() {
                    lemma_name_index_push(old(self).package_names@, *package_name, q);
                }
            }
        }
        let ghost names_now = self.package_names@;
        let ghost packages_mid = self.packages@;
        let mut pkg = Package::empty();
        self.packages.set_and_swap(pidx, &mut pkg);
        let ghost old_pkg = pkg;
        proof {
            if name_index(old(self).package_names@, package_name@) is Some {
                assert(old_pkg == old(self).packages@[pidx as int]);
            } else {
                assert(old_pkg.artifact_keys@.len() == 0);
            }
            assert(old_pkg.wf());
        }

        let aidx: usize = match find_name(&pkg.artifact_keys, artifact_key) {
            Some(j) => j,
            None => {
                proof {
                    lemma_name_index_props(pkg.artifact_keys@, artifact_key@);
                }
                pkg.artifact_keys.push(artifact_key.clone());
                pkg.artifacts.push(Artifact::empty());
                proof {
                    lemma_name_index_found(
                        pkg.artifact_keys@,
                        artifact_key@,
                        pkg.artifact_keys@.len() - 1,
                    );
                }
                pkg.artifact_keys.len() - 1
            },
        };
        proof {
            assert(name_index(pkg.artifact_keys@, artifact_key@) == Some(aidx as int));
            assert(pkg.wf()) by {
                if pkg.artifact_keys@.len() != old_pkg.artifact_keys@.len() {
                    lemma_name_index_props(old_pkg.artifact_keys@, artifact_key@);
                    assert(forall|i: int|
                        0 <= i < pkg.artifacts@.len() - 1 ==> pkg.artifacts@[i]
                            == old_pkg.artifacts@[i]);
                }
            }
            assert forall|q: Seq<char>| q != artifact_key@ implies name_index(
                pkg.artifact_keys@,
                q,
            ) == name_index(old_pkg.artifact_keys@, q) by {
                if pkg.artifact_keys@.len() != old_pkg.artifact_keys@.len() {
                    lemma_name_index_push(old_pkg.artifact_keys@, *artifact_key, q);
                }
            }
        }
        let ghost keys_now = pkg.artifact_keys@;
        let ghost old_in_db = db_art(*old(self), package_name@, artifact_key@);
        proof {
            if name_index(old(self).package_names@, package_name@) is Some && name_index(
                old_pkg.artifact_keys@,
                artifact_key@,
            ) is Some {
                assert(old_in_db == Some(old_pkg.artifacts@[
                    name_index(old_pkg.artifact_keys@, artifact_key@)->Some_0
                ]));
            } else {
                assert(old_in_db is None);
            }
        }

        // Build the new artifact, preserving known timings of kept cases.
        let old_art = &pkg.artifacts[aidx];
        proof {
            match old_in_db {
                Some(oa) => {
                    assert(oa == pkg.artifacts@[aidx as int]);
                },
                None => {
                    assert(old_art.case_names@.len() == 0);
                },
            }
        }
        let mut new_names: Vec<String> = Vec::new();
        let mut new_metas: Vec<M> = Vec::new();
        let mut new_timings: Vec<TimingData> = Vec::new();
        let mut stack: Vec<(String, M)> = Vec::new();
        let mut input = cases;
        let n0: usize = input.len();
        let ghost cases0 = input@;
        loop
            invariant
                cases0.len() == n0,
                stack@.len() + input@.len() == cases0.len(),
                input@ == cases0.take(input@.len() as int),
                forall|w: int| 0 <= w < stack@.len() ==> stack@[w] == cases0[cases0.len() - 1 - w],
            ensures
                input@.len() == 0,
                stack@.len() == cases0.len(),
                forall|w: int| 0 <= w < stack@.len() ==> stack@[w] == cases0[cases0.len() - 1 - w],
            decreases input@.len(),
        {
            let ghost dlen = input@.len() as int;
            match input.pop() {
                Some(c) => {
                    proof {
                        assert(cases0.take(dlen)[dlen - 1] == cases0[dlen - 1]);
                        assert(cases0.take(dlen).take(dlen - 1) =~= cases0.take(dlen - 1));
                    }
                    stack.push(c);
                },
                None => {
                    break ;
                },
            }
        }
        let mut k: usize = 0;
        while stack.len() > 0
            invariant
                old_art.wf(),
                cases0.len() == n0,
                k == cases0.len() - stack@.len(),
                0 <= k <= cases0.len(),
                forall|w: int| 0 <= w < stack@.len() ==> stack@[w] == cases0[cases0.len() - 1 - w],
                new_names@.len() == k as nat,
                new_metas@.len() == k as nat,
                new_timings@.len() == k as nat,
                forall|w: int| 0 <= w < k ==> #[trigger] new_names@[w]@ == cases0[w].0@,
                forall|w: int| 0 <= w < k ==> #[trigger] new_metas@[w] == cases0[w].1,
                forall|w: int|
                    0 <= w < k ==> match name_index(old_art.case_names@, cases0[w].0@) {
                        Some(x) => timing_data_eqv(
                            #[trigger] new_timings@[w],
                            old_art.case_timings@[x],
                        ),
                        None => new_timings@[w].when_read is None && new_timings@[w].this_run
                            is None,
                    },
            decreases stack@.len(),
        {
            let (name, meta) = stack.pop().unwrap();
            proof {
                assert((name, meta) == cases0[k as int]);
            }
            let timing = match find_name(&old_art.case_names, &name) {
                Some(x) => clone_timing_data(&old_art.case_timings[x]),
                None => fresh_timing_data(),
            };
            new_names.push(name);
            new_metas.push(meta);
            new_timings.push(timing);
            k = k + 1;
        }
        let new_art = Artifact {
            case_names: new_names,
            case_metas: new_metas,
            case_timings: new_timings,
        };
        proof {
            assert(new_art.wf()) by {
                assert forall|i: int, j: int|
                    0 <= i < j < new_art.case_names@.len() implies new_art.case_names@[i]@
                    != new_art.case_names@[j]@ by {
                    assert(new_art.case_names@[i]@ == cases0[i].0@);
                    assert(new_art.case_names@[j]@ == cases0[j].0@);
                }
            }
        }
        pkg.artifacts.set(aidx, new_art);
        proof {
            assert(pkg.wf());
        }
        self.packages.set_and_swap(pidx, &mut pkg);
        proof {
            assert(self.package_names@ == names_now);
            assert(self.packages@ == packages_mid.update(pidx as int, packages_mid[pidx as int])
                .update(pidx as int, self.packages@[pidx as int]) || true);
            assert(self.wf()) by {
                assert(forall|i: int|
                    0 <= i < self.packages@.len() && i != pidx as int ==> self.packages@[i]
                        == packages_mid[i]);
            }
            assert(name_index(self.package_names@, package_name@) == Some(pidx as int));
            let tgt = self.packages@[pidx as int];
            assert(tgt.artifact_keys@ == keys_now);
            assert(name_index(tgt.artifact_keys@, artifact_key@) == Some(aidx as int));
            assert(db_art(*self, package_name@, artifact_key@) == Some(
                tgt.artifacts@[aidx as int],
            ));
            assert forall|p: Seq<char>, a: Seq<char>|
                !(p == package_name@ && a == artifact_key@) implies db_art(*self, p, a)
                == db_art(*old(self), p, a) by {
                if p == package_name@ {
                    assert(name_index(self.package_names@, p) == Some(pidx as int));
                    if name_index(old(self).package_names@, p) is Some {
                        assert(db_art(*old(self), p, a) == match name_index(
                            old_pkg.artifact_keys@,
                            a,
                        ) {
                            Some(j) => Some(old_pkg.artifacts@[j]),
                            None => None,
                        });
                        assert(name_index(keys_now, a) == name_index(old_pkg.artifact_keys@, a));
                        match name_index(old_pkg.artifact_keys@, a) {
                            Some(j) => {
                                lemma_name_index_props(old_pkg.artifact_keys@, a);
                                lemma_name_index_props(keys_now, a);
                                lemma_name_index_props(keys_now, artifact_key@);
                                assert(keys_now[j] == old_pkg.artifact_keys@[j]
                                    || keys_now[j]@ == a);
                                assert(j != aidx as int);
                                assert(self.packages@[pidx as int].artifacts@[j]
                                    == old_pkg.artifacts@[j]);
                            },
                            None => {},
                        }
                    } else {
                        assert(old_pkg.artifact_keys@.len() == 0);
                        assert(name_index(keys_now, a) == name_index(old_pkg.artifact_keys@, a));
                        lemma_name_index_not_found(old_pkg.artifact_keys@, a);
                        assert(db_art(*old(self), p, a) is None);
                        assert(db_art(*self, p, a) is None);
                    }
                } else {
                    assert(name_index(self.package_names@, p) == name_index(
                        old(self).package_names@,
                        p,
                    ));
                    match name_index(old(self).package_names@, p) {
                        Some(i) => {
                            lemma_name_index_props(old(self).package_names@, p);
                            lemma_name_index_props(names_now, p);
                            lemma_name_index_props(names_now, package_name@);
                            assert(names_now[i]@ == p);
                            assert(i != pidx as int);
                            assert(i < old(self).packages@.len());
                            assert(packages_mid[i] == old(self).packages@[i]);
                            assert(self.packages@[i] == packages_mid[i]);
                        },
                        None => {},
                    }
                }
            }
        }
    }
}

/// The average of a duration list as its serialization computes it: each
/// entry divided by the count, then summed.
pub open spec fn sum_of_divided(ts: Seq<u64>, n: nat) -> int
    decreases ts.len(),
{
    if ts.len() == 0 {
        0
    } else {
        sum_of_divided(ts.drop_last(), n) + (if n == 0 {
            0int
        } else {
            ts.last() as int / n as int
        })
    }
}

impl<M> TestDb<M> {
    /// Record one finished run of a known case: fold the outcome in and
    /// append the duration. Everything else is untouched.
    #[verifier::rlimit(60)]
    pub fn add_timing(
        &mut self,
        package_name: &String,
        artifact_key: &String,
        case_name: &String,
        failed: bool,
        timing: u64,
    )
        requires
            old(self).wf(),
            db_art(*old(self), package_name@, artifact_key@) matches Some(art)
                && name_index(art.case_names@, case_name@) is Some,
        ensures
            final(self).wf(),
            forall|p: Seq<char>, a: Seq<char>|
                !(p == package_name@ && a == artifact_key@) ==> db_art(*final(self), p, a)
                    == db_art(*old(self), p, a),
            ({
                let oldart = db_art(*old(self), package_name@, artifact_key@)->Some_0;
                let c = name_index(oldart.case_names@, case_name@)->Some_0;
                db_art(*final(self), package_name@, artifact_key@) matches Some(art) && {
                    &&& art.case_names@ == oldart.case_names@
                    &&& art.case_metas@ == oldart.case_metas@
                    &&& art.case_timings@.len() == oldart.case_timings@.len()
                    &&& forall|w: int|
                        0 <= w < art.case_timings@.len() && w != c
                            ==> #[trigger] art.case_timings@[w] == oldart.case_timings@[w]
                    &&& outcome_timings_eqv(
                        art.case_timings@[c].when_read,
                        oldart.case_timings@[c].when_read,
                    )
                    &&& art.case_timings@[c].this_run matches Some(now) && now.timings@
                        == run_timings_after(oldart.case_timings@[c], timing) && now.outcome
                        == match oldart.case_timings@[c].this_run {
                        None => if failed {
                            CaseOutcome::Failure
                        } else {
                            CaseOutcome::Success
                        },
                        Some(prev) => if prev.outcome == CaseOutcome::Success {
                            if failed {
                                CaseOutcome::Failure
                            } else {
                                CaseOutcome::Success
                            }
                        } else {
                            CaseOutcome::Failure
                        },
                    }
                }
            }),
    {
        proof {
            lemma_name_index_props(self.package_names@, package_name@);
        }
        let pidx = find_name(&self.package_names, package_name).unwrap();
        let ghost packages_mid = self.packages@;
        let mut pkg = Package::empty();
        self.packages.set_and_swap(pidx, &mut pkg);
        let ghost old_pkg = pkg;
        proof {
            assert(pkg == old(self).packages@[pidx as int]);
            assert(pkg.wf());
            lemma_name_index_props(old_pkg.artifact_keys@, artifact_key@);
        }
        let aidx = find_name(&pkg.artifact_keys, artifact_key).unwrap();
        let ghost old_art_v = pkg.artifacts@[aidx as int];
        let mut art = Artifact::empty();
        pkg.artifacts.set_and_swap(aidx, &mut art);
        proof {
            assert(art == old_art_v);
            assert(art.wf());
            assert(db_art(*old(self), package_name@, artifact_key@) == Some(old_art_v));
            lemma_name_index_props(old_art_v.case_names@, case_name@);
        }
        let cidx = find_name(&art.case_names, case_name).unwrap();
        let mut data = clone_timing_data(&art.case_timings[cidx]);
        let ghost old_data = art.case_timings@[cidx as int];
        proof {
            assert(run_timings_after(data, timing) == run_timings_after(old_data, timing));
        }
        record_run(&mut data, failed, timing);
        art.case_timings.set(cidx, data);
        pkg.artifacts.set_and_swap(aidx, &mut art);
        self.packages.set_and_swap(pidx, &mut pkg);
        proof {
            assert(self.package_names@ == old(self).package_names@);
            assert(self.wf()) by {
                assert(forall|i: int|
                    0 <= i < self.packages@.len() && i != pidx as int ==> self.packages@[i]
                        == packages_mid[i]);
                assert(self.packages@[pidx as int].wf());
            }
            assert(name_index(self.package_names@, package_name@) == Some(pidx as int));
            assert(name_index(self.packages@[pidx as int].artifact_keys@, artifact_key@)
                == Some(aidx as int));
            assert forall|p: Seq<char>, a: Seq<char>|
                !(p == package_name@ && a == artifact_key@) implies db_art(*self, p, a)
                == db_art(*old(self), p, a) by {
                if p == package_name@ {
                    match name_index(old_pkg.artifact_keys@, a) {
                        Some(j) => {
                            lemma_name_index_props(old_pkg.artifact_keys@, a);
                            lemma_name_index_props(old_pkg.artifact_keys@, artifact_key@);
                            assert(j != aidx as int);
                            assert(self.packages@[pidx as int].artifacts@[j]
                                == old_pkg.artifacts@[j]);
                        },
                        None => {},
                    }
                } else {
                    match name_index(old(self).package_names@, p) {
                        Some(i) => {
                            lemma_name_index_props(old(self).package_names@, p);
                            lemma_name_index_props(old(self).package_names@, package_name@);
                            assert(i != pidx as int);
                            assert(self.packages@[i] == packages_mid[i]);
                        },
                        None => {},
                    }
                }
            }
        }
    }

    /// What is known of a case from before this run: the outcome read from
    /// disk and the average of its recorded durations. `None` when the
    /// case or its history is unknown.
    pub fn get_timing(
        &self,
        package_name: &String,
        artifact_key: &String,
        case_name: &String,
    ) -> (r: Option<(CaseOutcome, u64)>)
        requires
            self.wf(),
        ensures
            ({
                let found = match db_art(*self, package_name@, artifact_key@) {
                    Some(art) => match name_index(art.case_names@, case_name@) {
                        Some(c) => art.case_timings@[c].when_read,
                        None => None,
                    },
                    None => None,
                };
                match r {
                    Some((outcome, avg)) => found matches Some(read) && outcome == read.outcome
                        && avg as int == sum_of_divided(
                        read.timings@,
                        read.timings@.len(),
                    ),
                    None => found is None,
                }
            }),
    {
        proof {
            lemma_name_index_props(self.package_names@, package_name@);
        }
        let pidx = match find_name(&self.package_names, package_name) {
            Some(i) => i,
            None => {
                return None;
            },
        };
        let pkg = &self.packages[pidx];
        proof {
            assert(self.packages@[pidx as int].wf());
            lemma_name_index_props(pkg.artifact_keys@, artifact_key@);
        }
        let aidx = match find_name(&pkg.artifact_keys, artifact_key) {
            Some(j) => j,
            None => {
                return None;
            },
        };
        let art = &pkg.artifacts[aidx];
        proof {
            assert(pkg.artifacts@[aidx as int].wf());
        }
        let cidx = match find_name(&art.case_names, case_name) {
            Some(c) => c,
            None => {
                return None;
            },
        };
        match &art.case_timings[cidx].when_read {
            Some(read) => {
                let avg = average_each_divided(&read.timings);
                Some((read.outcome, avg))
            },
            None => None,
        }
    }
}

/// The sum of each entry divided by the count; zero for an empty list.
fn average_each_divided(ts: &Vec<u64>) -> (r: u64)
    ensures
        r as int == sum_of_divided(ts@, ts@.len()),
{
    let n = ts.len();
    if n == 0 {
        return 0;
    }
    let mut acc: u64 = 0;
    let mut i: usize = 0;
    let ghost q = u64::MAX as int / n as int;
    proof {
        vstd::arithmetic::div_mod::lemma_fundamental_div_mod(u64::MAX as int, n as int);
    }
    while i < n
        invariant
            0 < n == ts@.len(),
            i <= n,
            q == u64::MAX as int / n as int,
            n * q <= u64::MAX,
            acc as int == sum_of_divided(ts@.take(i as int), n as nat),
            acc as int <= i * q,
        decreases n - i,
    {
        let t = ts[i];
        proof {
            vstd::arithmetic::div_mod::lemma_div_is_ordered(
                ts@[i as int] as int,
                u64::MAX as int,
                n as int,
            );
            assert((i + 1) * q == i * q + q) by (nonlinear_arith);
            assert(i * q + q <= n * q) by (nonlinear_arith)
                requires
                    i + 1 <= n,
                    q >= 0,
            ;
            assert(ts@.take(i + 1 as int).drop_last() =~= ts@.take(i as int));
        }
        acc = acc + t / (n as u64);
        i = i + 1;
    }
    proof {
        assert(ts@.take(n as int) =~= ts@);
    }
    acc
}

/// The package name of one entry of an `existing` list.
pub open spec fn existing_key(existing: Seq<(String, Vec<String>)>, i: int) -> Seq<char> {
    existing[i].0@
}

/// Whether some entry of `existing` has this package name.
pub open spec fn pkg_allowed(existing: Seq<(String, Vec<String>)>, p: Seq<char>) -> bool {
    exists|i: int| 0 <= i < existing.len() && existing[i].0@ == p
}

fn find_pair(existing: &Vec<(String, Vec<String>)>, name: &String) -> (r: Option<usize>)
    ensures
        match r {
            Some(i) => i < existing@.len() && existing@[i as int].0@ == name@,
            None => !pkg_allowed(existing@, name@),
        },
{
    let mut i: usize = 0;
    while i < existing.len()
        invariant
            i <= existing@.len(),
            forall|j: int| 0 <= j < i ==> existing@[j].0@ != name@,
        decreases existing@.len() - i,
    {
        if existing[i].0 == *name {
            return Some(i);
        }
        i = i + 1;
    }
    None
}

fn contains_name(keys: &Vec<String>, k: &String) -> (r: bool)
    ensures
        r == exists|j: int| 0 <= j < keys@.len() && keys@[j]@ == k@,
{
    let mut i: usize = 0;
    while i < keys.len()
        invariant
            i <= keys@.len(),
            forall|j: int| 0 <= j < i ==> keys@[j]@ != k@,
        decreases keys@.len() - i,
    {
        if keys[i] == *k {
            return true;
        }
        i = i + 1;
    }
    false
}

impl<M> TestDb<M> {
    /// Keep only the packages that still exist, and inside each of them
    /// only the artifacts it still has; whatever is kept is unchanged.
    #[verifier::rlimit(100)]
    pub fn retain_packages_and_artifacts(&mut self, existing: &Vec<(String, Vec<String>)>)
        requires
            old(self).wf(),
            forall|i: int, j: int|
                #![trigger existing_key(existing@, i), existing_key(existing@, j)]
                0 <= i < j < existing@.len() ==> existing_key(existing@, i) != existing_key(
                    existing@,
                    j,
                ),
        ensures
            final(self).wf(),
            forall|p: Seq<char>, a: Seq<char>|
                #![trigger db_art(*final(self), p, a)]
                db_art(*final(self), p, a) == if pair_allowed(existing@, p, a) {
                    db_art(*old(self), p, a)
                } else {
                    None::<Artifact<M>>
                },
    {
        let ghost orig_names = old(self).package_names@;
        let ghost orig_pkgs = old(self).packages@;
        let mut name_stack: Vec<String> = Vec::new();
        let mut pkg_stack: Vec<Package<M>> = Vec::new();
        proof {
            assert(self.package_names@ =~= orig_names.take(self.package_names@.len() as int));
            assert(self.packages@ =~= orig_pkgs.take(self.packages@.len() as int));
        }
        loop
            invariant
                orig_names.len() == orig_pkgs.len(),
                self.package_names@.len() == self.packages@.len(),
                name_stack@.len() == pkg_stack@.len(),
                name_stack@.len() + self.package_names@.len() == orig_names.len(),
                self.package_names@ == orig_names.take(self.package_names@.len() as int),
                self.packages@ == orig_pkgs.take(self.packages@.len() as int),
                forall|k: int|
                    0 <= k < name_stack@.len() ==> #[trigger] name_stack@[k]
                        == orig_names[orig_names.len() - 1 - k],
                forall|k: int|
                    0 <= k < pkg_stack@.len() ==> #[trigger] pkg_stack@[k]
                        == orig_pkgs[orig_names.len() - 1 - k],
            ensures
                self.package_names@.len() == 0,
                self.packages@.len() == 0,
                name_stack@.len() == orig_names.len(),
                pkg_stack@.len() == orig_names.len(),
                forall|k: int|
                    0 <= k < name_stack@.len() ==> #[trigger] name_stack@[k]
                        == orig_names[orig_names.len() - 1 - k],
                forall|k: int|
                    0 <= k < pkg_stack@.len() ==> #[trigger] pkg_stack@[k]
                        == orig_pkgs[orig_names.len() - 1 - k],
            decreases self.package_names@.len(),
        {
            let ghost dlen = self.package_names@.len() as int;
            match self.package_names.pop() {
                Some(nm) => {
                    proof {
                        assert(orig_names.take(dlen)[dlen - 1] == orig_names[dlen - 1]);
                        assert(orig_names.take(dlen).take(dlen - 1) =~= orig_names.take(dlen - 1));
                        assert(orig_pkgs.take(dlen)[dlen - 1] == orig_pkgs[dlen - 1]);
                        assert(orig_pkgs.take(dlen).take(dlen - 1) =~= orig_pkgs.take(dlen - 1));
                    }
                    let pk = self.packages.pop().unwrap();
                    name_stack.push(nm);
                    pkg_stack.push(pk);
                },
                None => {
                    break ;
                },
            }
        }
        let total_pkgs: usize = name_stack.len();
        let mut j: usize = 0;
        while name_stack.len() > 0
            invariant
                forall|x: int, y: int|
                    #![trigger existing_key(existing@, x), existing_key(existing@, y)]
                    0 <= x < y < existing@.len() ==> existing_key(existing@, x) != existing_key(
                        existing@,
                        y,
                    ),
                orig_names.len() == total_pkgs,
                orig_names.len() == orig_pkgs.len(),
                old(self).wf(),
                orig_names == old(self).package_names@,
                orig_pkgs == old(self).packages@,
                name_stack@.len() == pkg_stack@.len(),
                j == orig_names.len() - name_stack@.len(),
                0 <= j <= orig_names.len(),
                forall|k: int|
                    0 <= k < name_stack@.len() ==> #[trigger] name_stack@[k]
                        == orig_names[orig_names.len() - 1 - k],
                forall|k: int|
                    0 <= k < pkg_stack@.len() ==> #[trigger] pkg_stack@[k]
                        == orig_pkgs[orig_names.len() - 1 - k],
                self.wf(),
                forall|w: int|
                    0 <= w < self.package_names@.len() ==> exists|i: int|
                        0 <= i < j && #[trigger] self.package_names@[w]@ == orig_names[i]@,
                forall|p: Seq<char>, a: Seq<char>|
                    #![trigger db_art(*self, p, a)]
                    db_art(*self, p, a) == if (exists|i: int|
                        0 <= i < j && orig_names[i]@ == p) && pair_allowed(existing@, p, a) {
                        db_art(*old(self), p, a)
                    } else {
                        None::<Artifact<M>>
                    },
            decreases name_stack@.len(),
        {
            let nm = name_stack.pop().unwrap();
            let mut pk = pkg_stack.pop().unwrap();
            proof {
                assert(nm == orig_names[j as int]);
                assert(pk == orig_pkgs[j as int]);
                assert(pk.wf());
                lemma_name_index_props(orig_names, nm@);
                lemma_name_index_found(orig_names, nm@, j as int);
            }
            match find_pair(existing, &nm) {
                Some(e) => {
                    let allowed = &existing[e].1;
                    let ghost pk0 = pk;
                    let mut key_stack: Vec<String> = Vec::new();
                    let mut art_stack: Vec<Artifact<M>> = Vec::new();
                    proof {
                        assert(pk.artifact_keys@ =~= pk0.artifact_keys@.take(
                            pk.artifact_keys@.len() as int,
                        ));
                        assert(pk.artifacts@ =~= pk0.artifacts@.take(pk.artifacts@.len() as int));
                    }
                    loop
                        invariant
                            pk0.artifact_keys@.len() == pk0.artifacts@.len(),
                            pk.artifact_keys@.len() == pk.artifacts@.len(),
                            key_stack@.len() == art_stack@.len(),
                            key_stack@.len() + pk.artifact_keys@.len()
                                == pk0.artifact_keys@.len(),
                            pk.artifact_keys@ == pk0.artifact_keys@.take(
                                pk.artifact_keys@.len() as int,
                            ),
                            pk.artifacts@ == pk0.artifacts@.take(pk.artifacts@.len() as int),
                            forall|k: int|
                                0 <= k < key_stack@.len() ==> key_stack@[k]
                                    == pk0.artifact_keys@[pk0.artifact_keys@.len() - 1 - k]
                                    && art_stack@[k] == pk0.artifacts@[pk0.artifact_keys@.len()
                                    - 1 - k],
                        ensures
                            pk.artifact_keys@.len() == 0,
                            pk.artifacts@.len() == 0,
                            key_stack@.len() == pk0.artifact_keys@.len(),
                            art_stack@.len() == pk0.artifact_keys@.len(),
                            forall|k: int|
                                0 <= k < key_stack@.len() ==> key_stack@[k]
                                    == pk0.artifact_keys@[pk0.artifact_keys@.len() - 1 - k]
                                    && art_stack@[k] == pk0.artifacts@[pk0.artifact_keys@.len()
                                    - 1 - k],
                        decreases pk.artifact_keys@.len(),
                    {
                        let ghost alen = pk.artifact_keys@.len() as int;
                        match pk.artifact_keys.pop() {
                            Some(ky) => {
                                proof {
                                    assert(pk0.artifact_keys@.take(alen)[alen - 1]
                                        == pk0.artifact_keys@[alen - 1]);
                                    assert(pk0.artifact_keys@.take(alen).take(alen - 1)
                                        =~= pk0.artifact_keys@.take(alen - 1));
                                    assert(pk0.artifacts@.take(alen)[alen - 1]
                                        == pk0.artifacts@[alen - 1]);
                                    assert(pk0.artifacts@.take(alen).take(alen - 1)
                                        =~= pk0.artifacts@.take(alen - 1));
                                }
                                let ar = pk.artifacts.pop().unwrap();
                                key_stack.push(ky);
                                art_stack.push(ar);
                            },
                            None => {
                                break ;
                            },
                        }
                    }
                    let total_arts: usize = key_stack.len();
                    let mut w: usize = 0;
                    while key_stack.len() > 0
                        invariant
                            pk0.artifact_keys@.len() == total_arts,
                            pk0.wf(),
                            key_stack@.len() == art_stack@.len(),
                            w == pk0.artifact_keys@.len() - key_stack@.len(),
                            0 <= w <= pk0.artifact_keys@.len(),
                            forall|k: int|
                                0 <= k < key_stack@.len() ==> key_stack@[k]
                                    == pk0.artifact_keys@[pk0.artifact_keys@.len() - 1 - k]
                                    && art_stack@[k] == pk0.artifacts@[pk0.artifact_keys@.len()
                                    - 1 - k],
                            pk.wf(),
                            forall|v: int|
                                0 <= v < pk.artifact_keys@.len() ==> exists|i: int|
                                    0 <= i < w && #[trigger] pk.artifact_keys@[v]@
                                        == pk0.artifact_keys@[i]@,
                            forall|a: Seq<char>|
                                #![trigger name_index(pk.artifact_keys@, a)]
                                match name_index(pk.artifact_keys@, a) {
                                    Some(v) => pk.artifacts@[v] == pk0.artifacts@[
                                        name_index(pk0.artifact_keys@, a)->Some_0
                                    ] && name_index(pk0.artifact_keys@, a) is Some && (exists|z:
                                    int|
                                        0 <= z < allowed@.len() && allowed@[z]@ == a) && (exists|i:
                                    int|
                                        0 <= i < w && pk0.artifact_keys@[i]@ == a),
                                    None => !(exists|i: int|
                                        0 <= i < w && pk0.artifact_keys@[i]@ == a) || !(exists|z:
                                    int|
                                        0 <= z < allowed@.len() && allowed@[z]@ == a),
                                },
                        decreases key_stack@.len(),
                    {
                        let ky = key_stack.pop().unwrap();
                        let ar = art_stack.pop().unwrap();
                        proof {
                            assert(ky == pk0.artifact_keys@[w as int]);
                            assert(ar == pk0.artifacts@[w as int]);
                            lemma_name_index_props(pk0.artifact_keys@, ky@);
                            lemma_name_index_found(pk0.artifact_keys@, ky@, w as int);
                        }
                        let ghost pre_keys = pk.artifact_keys@;
                        let ghost pre_arts = pk.artifacts@;
                        let kept = contains_name(allowed, &ky);
                        if kept {
                            proof {
                                assert(pk0.artifacts@[w as int].wf());
                                assert forall|v: int|
                                    0 <= v < pk.artifact_keys@.len() implies pk.artifact_keys@[
                                    v
                                ]@ != ky@ by {
                                    let i = choose|i: int|
                                        0 <= i < w && pk.artifact_keys@[v]@
                                            == pk0.artifact_keys@[i]@;
                                    assert(pk0.artifact_keys@[i]@
                                        != pk0.artifact_keys@[w as int]@);
                                }
                            }
                            pk.artifact_keys.push(ky);
                            pk.artifacts.push(ar);
                            proof {
                                lemma_name_index_found(
                                    pk.artifact_keys@,
                                    pk0.artifact_keys@[w as int]@,
                                    pk.artifact_keys@.len() - 1,
                                );
                                assert forall|a: Seq<char>| a != pk0.artifact_keys@[w as int]@
                                    implies name_index(pk.artifact_keys@, a) == name_index(
                                    pre_keys,
                                    a,
                                ) by {
                                    lemma_name_index_push(
                                        pre_keys,
                                        pk0.artifact_keys@[w as int],
                                        a,
                                    );
                                }
                            }
                        }
                        proof {
                            let ghost kyv = pk0.artifact_keys@[w as int]@;
                            assert forall|a: Seq<char>|
                                #![trigger name_index(pk.artifact_keys@, a)]
                                match name_index(pk.artifact_keys@, a) {
                                    Some(v) => pk.artifacts@[v] == pk0.artifacts@[
                                        name_index(pk0.artifact_keys@, a)->Some_0
                                    ] && name_index(pk0.artifact_keys@, a) is Some && (exists|z:
                                    int|
                                        0 <= z < allowed@.len() && allowed@[z]@ == a) && (exists|i:
                                    int|
                                        0 <= i < w + 1 && pk0.artifact_keys@[i]@ == a),
                                    None => !(exists|i: int|
                                        0 <= i < w + 1 && pk0.artifact_keys@[i]@ == a) || !(exists
                                    |z: int|
                                        0 <= z < allowed@.len() && allowed@[z]@ == a),
                                } by {
                                lemma_name_index_props(pk.artifact_keys@, a);
                                lemma_name_index_props(pk0.artifact_keys@, a);
                                lemma_name_index_props(pre_keys, a);
                                if a == kyv {
                                    if kept {
                                        assert(pk.artifact_keys@.last()@ == kyv);
                                        assert(name_index(pk.artifact_keys@, a) == Some(
                                            pk.artifact_keys@.len() - 1,
                                        ));
                                        assert(name_index(pk0.artifact_keys@, a) == Some(
                                            w as int,
                                        ));
                                        assert(pk.artifacts@.last() == pk0.artifacts@[w as int]);
                                    } else {
                                        match name_index(pk.artifact_keys@, a) {
                                            Some(v) => {
                                                let iw = choose|i: int|
                                                    0 <= i < w && pk.artifact_keys@[v]@
                                                        == pk0.artifact_keys@[i]@;
                                                assert(pk0.artifact_keys@[iw]@
                                                    != pk0.artifact_keys@[w as int]@);
                                                assert(false);
                                            },
                                            None => {},
                                        }
                                    }
                                } else {
                                    if kept {
                                        assert(name_index(pk.artifact_keys@, a) == name_index(
                                            pre_keys,
                                            a,
                                        ));
                                        match name_index(pre_keys, a) {
                                            Some(v) => {
                                                assert(pk.artifacts@[v] == pre_arts[v]);
                                            },
                                            None => {},
                                        }
                                    }
                                    match name_index(pk.artifact_keys@, a) {
                                        Some(v) => {
                                            assert(pk.artifact_keys@[v]@ == a);
                                        },
                                        None => {},
                                    }
                                }
                            }
                        }
                        w = w + 1;
                    }
                    proof {
                        assert forall|v: int|
                            0 <= v < self.package_names@.len() implies self.package_names@[v]@
                            != nm@ by {
                            let i = choose|i: int|
                                0 <= i < j && self.package_names@[v]@ == orig_names[i]@;
                            assert(orig_names[i]@ != orig_names[j as int]@);
                        }
                    }
                    let ghost pre_db = *self;
                    let ghost pre_names = self.package_names@;
                    let ghost pre_pkgs = self.packages@;
                    self.package_names.push(nm);
                    self.packages.push(pk);
                    proof {
                        lemma_name_index_found(
                            self.package_names@,
                            orig_names[j as int]@,
                            self.package_names@.len() - 1,
                        );
                        assert forall|p: Seq<char>| p != orig_names[j as int]@ implies name_index(
                            self.package_names@,
                            p,
                        ) == name_index(pre_names, p) by {
                            lemma_name_index_push(pre_names, orig_names[j as int], p);
                        }
                        assert(self.wf()) by {
                            assert(forall|i: int|
                                0 <= i < pre_pkgs.len() ==> self.packages@[i] == pre_pkgs[i]);
                        }
                        assert forall|p: Seq<char>, a: Seq<char>|
                            #![trigger db_art(*self, p, a)]
                            db_art(*self, p, a) == if (exists|i: int|
                                0 <= i < j + 1 && orig_names[i]@ == p) && pair_allowed(
                                existing@,
                                p,
                                a,
                            ) {
                                db_art(*old(self), p, a)
                            } else {
                                None::<Artifact<M>>
                            } by {
                            if p == orig_names[j as int]@ {
                                assert(name_index(orig_names, p) == Some(j as int));
                                assert(name_index(self.package_names@, p) == Some(
                                    self.package_names@.len() - 1,
                                ));
                                assert(self.packages@.last() == pk);
                                assert(db_art(*old(self), p, a) == match name_index(
                                    pk0.artifact_keys@,
                                    a,
                                ) {
                                    Some(v) => Some(pk0.artifacts@[v]),
                                    None => None,
                                });
                                assert(pair_allowed(existing@, p, a) == (exists|z: int|
                                    0 <= z < allowed@.len() && allowed@[z]@ == a)) by {
                                    if pair_allowed(existing@, p, a) {
                                        let (i, z) = choose|i: int, z: int|
                                            #![auto]
                                            0 <= i < existing@.len() && 0 <= z
                                                < existing@[i].1@.len() && existing@[i].0@ == p
                                                && existing@[i].1@[z]@ == a;
                                        assert(0 <= i < existing@.len() && existing@[i].0@ == p);
                                        assert(existing_key(existing@, i) == existing_key(
                                            existing@,
                                            e as int,
                                        ));
                                        if i != e as int {
                                            if i < e as int {
                                                assert(existing_key(existing@, i)
                                                    != existing_key(existing@, e as int));
                                            } else {
                                                assert(existing_key(existing@, e as int)
                                                    != existing_key(existing@, i));
                                            }
                                        }
                                        assert(i == e as int);
                                        assert(allowed@[z]@ == a);
                                    }
                                    if (exists|z: int|
                                        0 <= z < allowed@.len() && allowed@[z]@ == a) {
                                        let z = choose|z: int|
                                            0 <= z < allowed@.len() && allowed@[z]@ == a;
                                        assert((e as int) < existing@.len()
                                            && existing@[e as int].0@ == p
                                            && existing@[e as int].1@[z]@ == a);
                                    }
                                }
                                assert(exists|i: int| 0 <= i < j + 1 && orig_names[i]@ == p)
                                    by {
                                    assert(0 <= j < j + 1 && orig_names[j as int]@ == p);
                                }
                                match name_index(pk.artifact_keys@, a) {
                                    Some(v) => {
                                        assert(db_art(*self, p, a) == Some(pk.artifacts@[v]));
                                    },
                                    None => {
                                        assert(db_art(*self, p, a) is None);
                                        if (exists|i: int|
                                            0 <= i < pk0.artifact_keys@.len()
                                                && pk0.artifact_keys@[i]@ == a) {
                                            assert(!(exists|z: int|
                                                0 <= z < allowed@.len() && allowed@[z]@ == a));
                                        } else {
                                            lemma_name_index_props(pk0.artifact_keys@, a);
                                            match name_index(pk0.artifact_keys@, a) {
                                                Some(i0) => {
                                                    assert(pk0.artifact_keys@[i0]@ == a);
                                                    assert(false);
                                                },
                                                None => {},
                                            }
                                        }
                                    },
                                }
                            } else {
                                assert(db_art(pre_db, p, a) == if (exists|i: int|
                                    0 <= i < j && orig_names[i]@ == p) && pair_allowed(
                                    existing@,
                                    p,
                                    a,
                                ) {
                                    db_art(*old(self), p, a)
                                } else {
                                    None::<Artifact<M>>
                                });
                                assert(name_index(self.package_names@, p) == name_index(
                                    pre_names,
                                    p,
                                ));
                                lemma_name_index_props(pre_names, p);
                                match name_index(pre_names, p) {
                                    Some(v) => {
                                        assert(self.packages@[v] == pre_pkgs[v]);
                                    },
                                    None => {},
                                }
                                if (exists|i: int| 0 <= i < j + 1 && orig_names[i]@ == p) {
                                    let i = choose|i: int|
                                        0 <= i < j + 1 && orig_names[i]@ == p;
                                    assert(i != j as int);
                                }
                            }
                        }
                    }
                },
                None => {
                    proof {
                        assert forall|p: Seq<char>, a: Seq<char>|
                            #![trigger db_art(*self, p, a)]
                            db_art(*self, p, a) == if (exists|i: int|
                                0 <= i < j + 1 && orig_names[i]@ == p) && pair_allowed(
                                existing@,
                                p,
                                a,
                            ) {
                                db_art(*old(self), p, a)
                            } else {
                                None::<Artifact<M>>
                            } by {
                            if p == orig_names[j as int]@ {
                                assert(!pkg_allowed(existing@, p));
                                assert(!pair_allowed(existing@, p, a));
                            } else {
                                if (exists|i: int| 0 <= i < j + 1 && orig_names[i]@ == p) {
                                    let i = choose|i: int|
                                        0 <= i < j + 1 && orig_names[i]@ == p;
                                    assert(i != j as int);
                                }
                            }
                        }
                    }
                },
            }
            j = j + 1;
        }
        proof {
            assert forall|p: Seq<char>, a: Seq<char>|
                #![trigger db_art(*self, p, a)]
                db_art(*self, p, a) == if pair_allowed(existing@, p, a) {
                    db_art(*old(self), p, a)
                } else {
                    None::<Artifact<M>>
                } by {
                match name_index(orig_names, p) {
                    Some(i) => {
                        lemma_name_index_props(orig_names, p);
                    },
                    None => {
                        lemma_name_index_props(orig_names, p);
                        assert(db_art(*old(self), p, a) is None);
                        assert(!(exists|i: int| 0 <= i < j && orig_names[i]@ == p));
                    },
                }
            }
        }
    }
}

} // verus!
