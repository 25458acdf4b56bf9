//! The test database's on-disk form: a versioned table with one section
//! per case, keyed `package.artifact.case`, holding the recent durations in
//! seconds and the last outcome.
use vstd::prelude::*;

use crate::test_db::{Artifact, CaseOutcome, OutcomeTimings, Package, TestDb, TimingData};
use crate::text::{chars_of, lex_less, lex_lt, string_of, u64_to_dec};
use crate::upload::{last_idx, lemma_last_idx_found, lemma_last_idx_not_found};
use crate::toml_text::{parse_toml, TomlValue};

verus! {

/// The schema version this form writes and reads.
pub const TEST_DB_VERSION: u64 = 3;

/// The file under the state directory that holds the database.
pub fn test_db_file_name() -> (r: String)
    ensures
        r@ == "test-listing.toml"@,
{
    String::from_str("test-listing.toml")
}

/// A case outcome as written to disk; a case that has never run is `New`.
#[derive(Clone, Copy, Debug, PartialEq, Eq, Structural)]
pub enum OnDiskCaseOutcome {
    Success,
    Failure,
    New,
}

impl OnDiskCaseOutcome {
    /// Whether this outcome counts as a success when read back.
    pub fn success(&self) -> (r: bool)
        ensures
            r == (*self == OnDiskCaseOutcome::Success),
    {
        matches!(self, Self::Success)
    }

    /// The word written in the outcome field.
    pub fn word(&self) -> (r: &'static str)
        ensures
            r@ == outcome_word(*self),
    {
        match self {
            OnDiskCaseOutcome::Success => "success",
            OnDiskCaseOutcome::Failure => "failure",
            OnDiskCaseOutcome::New => "new",
        }
    }
}

/// The outcome and durations written for one case: what this run produced,
/// else what was read, else a fresh `New` record.
pub open spec fn disk_record_of(d: TimingData) -> (OnDiskCaseOutcome, Seq<u64>) {
    match d.this_run {
        Some(now) => (
            if now.outcome == CaseOutcome::Success {
                OnDiskCaseOutcome::Success
            } else {
                OnDiskCaseOutcome::Failure
            },
            now.timings@,
        ),
        None => match d.when_read {
            Some(read) => (
                if read.outcome == CaseOutcome::Success {
                    OnDiskCaseOutcome::Success
                } else {
                    OnDiskCaseOutcome::Failure
                },
                read.timings@,
            ),
            None => (OnDiskCaseOutcome::New, Seq::empty()),
        },
    }
}

/// Compute the on-disk record of one case.
pub fn disk_record(d: &TimingData) -> (r: (OnDiskCaseOutcome, Vec<u64>))
    ensures
        (r.0, r.1@) == disk_record_of(*d),
{
    match &d.this_run {
        Some(now) => (
            if now.outcome.failure() {
                OnDiskCaseOutcome::Failure
            } else {
                OnDiskCaseOutcome::Success
            },
            crate::test_db::clone_outcome_timings(now).timings,
        ),
        None => match &d.when_read {
            Some(read) => (
                if read.outcome.failure() {
                    OnDiskCaseOutcome::Failure
                } else {
                    OnDiskCaseOutcome::Success
                },
                crate::test_db::clone_outcome_timings(read).timings,
            ),
            None => (OnDiskCaseOutcome::New, Vec::new()),
        },
    }
}

/// Build the in-memory record for one case read from disk.
pub fn read_record(outcome: OnDiskCaseOutcome, timings: Vec<u64>) -> (r: TimingData)
    ensures
        r.this_run is None,
        timings@.len() == 0 ==> r.when_read is None,
        timings@.len() > 0 ==> (r.when_read matches Some(read) && read.timings@ == timings@
            && read.outcome == (if outcome == OnDiskCaseOutcome::Success {
            CaseOutcome::Success
        } else {
            CaseOutcome::Failure
        })),
{
    if timings.len() == 0 {
        TimingData { when_read: None, this_run: None }
    } else {
        TimingData {
            when_read: Some(
                OutcomeTimings {
                    outcome: if outcome.success() {
                        CaseOutcome::Success
                    } else {
                        CaseOutcome::Failure
                    },
                    timings,
                },
            ),
            this_run: None,
        }
    }
}

/// Ten to the `k`.
pub open spec fn pow10(k: nat) -> nat
    decreases k,
{
    if k == 0 {
        1
    } else {
        10 * pow10((k - 1) as nat)
    }
}

proof fn lemma_pow10_9()
    ensures
        pow10(9) == 1000000000,
{
    reveal_with_fuel(pow10, 10);
}

/// A decimal rendering never has more digits than its bound allows.
proof fn lemma_dec_of_len(n: nat, k: nat)
    requires
        k >= 1,
        n < pow10(k),
    ensures
        crate::text::dec_of(n).len() <= k,
    decreases k,
{
    if n < 10 {
    } else {
        if k == 1 {
            assert(pow10(0nat) == 1);
            assert(pow10(1nat) == 10);
            assert(false);
        }
        assert(n / 10 < pow10((k - 1) as nat)) by (nonlinear_arith)
            requires
                n < 10 * pow10((k - 1) as nat),
        ;
        lemma_dec_of_len(n / 10, (k - 1) as nat);
    }
}

/// `n` zero characters.
pub open spec fn zero_pad(n: nat) -> Seq<char>
    decreases n,
{
    if n == 0 {
        Seq::empty()
    } else {
        zero_pad((n - 1) as nat).push('0')
    }
}

/// A digit string without its trailing zeros; at least one digit stays.
pub open spec fn strip_zeros(s: Seq<char>) -> Seq<char>
    decreases s.len(),
{
    if s.len() > 1 && s.last() == '0' {
        strip_zeros(s.drop_last())
    } else {
        s
    }
}

/// A duration in whole nanoseconds rendered as seconds: the whole part, a
/// point, and the nine-digit fraction without trailing zeros — `.0` when
/// it is exact.
pub open spec fn seconds_text(nanos: u64) -> Seq<char> {
    let units = nanos as nat / 1000000000;
    let frac = nanos as nat % 1000000000;
    crate::text::dec_of(units) + seq!['.'] + (if frac == 0 {
        seq!['0']
    } else {
        strip_zeros(
            zero_pad((9 - crate::text::dec_of(frac).len()) as nat) + crate::text::dec_of(frac),
        )
    })
}

/// Render one duration as seconds.
#[verifier::rlimit(60)]
pub fn render_seconds(nanos: u64) -> (r: Vec<char>)
    ensures
        r@ == seconds_text(nanos),
{
    let units = nanos / 1000000000;
    let frac = nanos % 1000000000;
    let mut out = u64_to_dec(units);
    out.push('.');
    let ghost head = crate::text::dec_of(units as nat) + seq!['.'];
    proof {
        assert(out@ =~= head);
    }
    if frac == 0 {
        out.push('0');
        proof {
            assert(out@ =~= seconds_text(nanos));
        }
        return out;
    }
    let digits = u64_to_dec(frac);
    proof {
        lemma_pow10_9();
        lemma_dec_of_len(frac as nat, 9);
    }
    let mut padded: Vec<char> = Vec::new();
    let pad_total: usize = 9 - digits.len();
    let mut pad: usize = pad_total;
    while pad > 0
        invariant
            pad <= pad_total,
            padded@ == zero_pad((pad_total - pad) as nat),
        decreases pad,
    {
        padded.push('0');
        proof {
            assert(padded@ =~= zero_pad((pad_total - pad + 1) as nat));
        }
        pad = pad - 1;
    }
    let ghost zp = zero_pad(pad_total as nat);
    let mut i: usize = 0;
    while i < digits.len()
        invariant
            i <= digits@.len(),
            padded@ == zp + digits@.subrange(0, i as int),
        decreases digits@.len() - i,
    {
        padded.push(digits[i]);
        proof {
            assert(padded@ =~= zp + digits@.subrange(0, i + 1 as int));
        }
        i = i + 1;
    }
    proof {
        assert(digits@.subrange(0, digits@.len() as int) =~= digits@);
        assert(padded@ == zp + digits@);
    }
    let mut end = padded.len();
    proof {
        assert(padded@.take(padded@.len() as int) =~= padded@);
    }
    while end > 1 && padded[end - 1] == '0'
        invariant
            1 <= end <= padded@.len(),
            padded@ == zp + digits@,
            strip_zeros(padded@) == strip_zeros(padded@.take(end as int)),
        decreases end,
    {
        proof {
            let cur = padded@.take(end as int);
            assert(cur.last() == padded@[end - 1]);
            assert(cur.drop_last() =~= padded@.take(end - 1));
        }
        end = end - 1;
    }
    proof {
        assert(strip_zeros(padded@.take(end as int)) == padded@.take(end as int));
    }
    let mut k: usize = 0;
    while k < end
        invariant
            k <= end <= padded@.len(),
            out@ == head + padded@.subrange(0, k as int),
        decreases end - k,
    {
        out.push(padded[k]);
        proof {
            assert(out@ =~= head + padded@.subrange(0, k + 1 as int));
        }
        k = k + 1;
    }
    proof {
        assert(out@ =~= seconds_text(nanos));
    }
    out
}

/// Whether `c` may stand unquoted in a section key.
pub open spec fn is_bare_char(c: char) -> bool {
    let u = c as u32;
    (97 <= u && u <= 122) || (65 <= u && u <= 90) || (48 <= u && u <= 57) || u == 95 || u == 45
}

/// Whether a whole key may stand unquoted.
pub open spec fn bare_key_ok(s: Seq<char>) -> bool {
    s.len() > 0 && forall|i: int| 0 <= i < s.len() ==> is_bare_char(s[i])
}

/// A key as written in a section header: bare where possible, quoted
/// otherwise.
pub open spec fn key_text(s: Seq<char>) -> Seq<char> {
    if bare_key_ok(s) {
        s
    } else {
        crate::digest_store::quoted(s)
    }
}

fn is_bare_key(s: &String) -> (r: bool)
    ensures
        r == bare_key_ok(s@),
{
    let cs = chars_of(s.as_str());
    if cs.len() == 0 {
        return false;
    }
    let mut i: usize = 0;
    while i < cs.len()
        invariant
            i <= cs@.len(),
            cs@ == s@,
            s@.len() > 0,
            forall|j: int| 0 <= j < i ==> is_bare_char(s@[j]),
        decreases cs@.len() - i,
    {
        let u = cs[i] as u32;
        let ok = (97 <= u && u <= 122) || (65 <= u && u <= 90) || (48 <= u && u <= 57) || u == 95
            || u == 45;
        if !ok {
            return false;
        }
        i = i + 1;
    }
    true
}

fn render_key(s: &String) -> (r: Vec<char>)
    ensures
        r@ == key_text(s@),
{
    if is_bare_key(s) {
        chars_of(s.as_str())
    } else {
        crate::digest_store::quote_chars(&chars_of(s.as_str()))
    }
}

/// Whether some entry of `order` equals `v`.
pub open spec fn covered(order: Seq<usize>, v: int) -> bool {
    exists|k: int| 0 <= k < order.len() && order[k] == v
}

/// The position at which a name belongs in an already-sorted order: the
/// first entry whose name is greater.
fn insert_position(names: &Vec<String>, order: &Vec<usize>, ci: &Vec<char>) -> (at: usize)
    requires
        forall|k: int| 0 <= k < order@.len() ==> #[trigger] order@[k] < names@.len(),
    ensures
        at <= order@.len(),
        forall|k: int| 0 <= k < at ==> !lex_lt(ci@, names@[order@[k] as int]@),
        at < order@.len() ==> lex_lt(ci@, names@[order@[at as int] as int]@),
{
    let mut at: usize = 0;
    while at < order.len()
        invariant
            at <= order@.len(),
            forall|k: int| 0 <= k < order@.len() ==> #[trigger] order@[k] < names@.len(),
            forall|k: int| 0 <= k < at ==> !lex_lt(ci@, names@[order@[k] as int]@),
        decreases order@.len() - at,
    {
        let cj = chars_of(names[order[at]].as_str());
        if lex_less(ci, &cj) {
            return at;
        }
        at = at + 1;
    }
    at
}

/// Indices of `names` in strictly ascending name order: a sorted
/// permutation. The names must be pairwise distinct.
#[verifier::rlimit(100)]
fn sorted_indices(names: &Vec<String>) -> (r: Vec<usize>)
    requires
        forall|i: int, j: int|
            0 <= i < j < names@.len() ==> names@[i]@ != names@[j]@,
    ensures
        r@.len() == names@.len(),
        forall|k: int| 0 <= k < r@.len() ==> #[trigger] r@[k] < names@.len(),
        forall|k: int, l: int|
            0 <= k < l < r@.len() ==> lex_lt(names@[r@[k] as int]@, names@[r@[l] as int]@),
        forall|v: int| 0 <= v < names@.len() ==> covered(r@, v),
{
    let mut order: Vec<usize> = Vec::new();
    let mut i: usize = 0;
    while i < names.len()
        invariant
            i <= names@.len(),
            forall|x: int, y: int|
                0 <= x < y < names@.len() ==> names@[x]@ != names@[y]@,
            order@.len() == i as nat,
            forall|k: int| 0 <= k < order@.len() ==> #[trigger] order@[k] < i,
            forall|k: int, l: int|
                0 <= k < l < order@.len() ==> lex_lt(
                    names@[order@[k] as int]@,
                    names@[order@[l] as int]@,
                ),
            forall|v: int| 0 <= v < i ==> covered(order@, v),
        decreases names@.len() - i,
    {
        let ci = chars_of(names[i].as_str());
        let at = insert_position(names, &order, &ci);
        let ghost pre = order@;
        proof {
            // Entries before the position are strictly below the new name;
            // at the position and beyond they are strictly above.
            assert forall|k: int| 0 <= k < at implies lex_lt(
                names@[pre[k] as int]@,
                names@[i as int]@,
            ) by {
                crate::text::lemma_lex_connex(names@[pre[k] as int]@, names@[i as int]@);
                assert(names@[pre[k] as int]@ != names@[i as int]@);
            }
            assert forall|m: int| at <= m < pre.len() implies lex_lt(
                names@[i as int]@,
                names@[pre[m] as int]@,
            ) by {
                if m > at as int {
                    crate::text::lemma_lex_trans(
                        names@[i as int]@,
                        names@[pre[at as int] as int]@,
                        names@[pre[m] as int]@,
                    );
                }
            }
        }
        order.insert(at, i);
        proof {
            let now = order@;
            assert(now == pre.insert(at as int, i as usize));
            assert(now.len() == pre.len() + 1);
            assert forall|k: int| 0 <= k < now.len() implies #[trigger] now[k] < i + 1 by {
                if k < at {
                    assert(now[k] == pre[k]);
                } else if k == at {
                    assert(now[k] == i as usize);
                } else {
                    assert(now[k] == pre[k - 1]);
                }
            }
            assert forall|k: int, l: int|
                0 <= k < l < now.len() implies lex_lt(
                names@[now[k] as int]@,
                names@[now[l] as int]@,
            ) by {
                if k < at {
                    assert(now[k] == pre[k]);
                } else if k == at {
                    assert(now[k] == i as usize);
                } else {
                    assert(now[k] == pre[k - 1]);
                }
                if l < at {
                    assert(now[l] == pre[l]);
                } else if l == at {
                    assert(now[l] == i as usize);
                } else {
                    assert(now[l] == pre[l - 1]);
                }
            }
            assert forall|v: int| 0 <= v < i + 1 implies covered(now, v) by {
                if v == i as int {
                    assert(now[at as int] == i as usize);
                } else {
                    assert(covered(pre, v));
                    let k0 = choose|k0: int| 0 <= k0 < pre.len() && pre[k0] == v;
                    if k0 < at {
                        assert(now[k0] == pre[k0]);
                    } else {
                        assert(now[k0 + 1] == pre[k0]);
                    }
                }
            }
        }
        i = i + 1;
    }
    order
}

/// One case as written to disk: its three key names, the outcome and the
/// durations.
#[verifier::ext_equal]
pub ghost struct DbRowV {
    pub pkg: Seq<char>,
    pub art: Seq<char>,
    pub case: Seq<char>,
    pub outcome: OnDiskCaseOutcome,
    pub timings: Seq<u64>,
}

/// The word written for an outcome.
pub open spec fn outcome_word(o: OnDiskCaseOutcome) -> Seq<char> {
    match o {
        OnDiskCaseOutcome::Success => "success"@,
        OnDiskCaseOutcome::Failure => "failure"@,
        OnDiskCaseOutcome::New => "new"@,
    }
}

/// A duration list as written: comma-separated seconds.
pub open spec fn timings_text(ts: Seq<u64>) -> Seq<char>
    decreases ts.len(),
{
    if ts.len() == 0 {
        Seq::empty()
    } else if ts.len() == 1 {
        seconds_text(ts[0])
    } else {
        timings_text(ts.drop_last()) + ", "@ + seconds_text(ts.last())
    }
}

/// One case section as written.
pub open spec fn render_row(row: DbRowV) -> Seq<char> {
    "\n["@ + key_text(row.pkg) + seq!['.'] + key_text(row.art) + seq!['.'] + key_text(row.case)
        + "]\ntimings = ["@ + timings_text(row.timings) + "]\noutcome = \""@ + outcome_word(
        row.outcome,
    ) + "\"\n"@
}

/// A list of case sections as written, in order.
pub open spec fn render_rows(rows: Seq<DbRowV>) -> Seq<char>
    decreases rows.len(),
{
    if rows.len() == 0 {
        Seq::empty()
    } else {
        render_rows(rows.drop_last()) + render_row(rows.last())
    }
}

/// Strict order on rows: by package, then artifact, then case name.
pub open spec fn row_lt(a: DbRowV, b: DbRowV) -> bool {
    ||| lex_lt(a.pkg, b.pkg)
    ||| (a.pkg == b.pkg && lex_lt(a.art, b.art))
    ||| (a.pkg == b.pkg && a.art == b.art && lex_lt(a.case, b.case))
}

/// The row for the case at the given indices of the database.
pub open spec fn row_at<M>(db: TestDb<M>, p: int, a: int, c: int) -> DbRowV {
    let pkg = db.packages@[p];
    let art = pkg.artifacts@[a];
    let rec = disk_record_of(art.case_timings@[c]);
    DbRowV {
        pkg: db.package_names@[p]@,
        art: pkg.artifact_keys@[a]@,
        case: art.case_names@[c]@,
        outcome: rec.0,
        timings: rec.1,
    }
}

/// Whether the triple indexes a case of the database.
pub open spec fn db_index_ok<M>(db: TestDb<M>, p: int, a: int, c: int) -> bool {
    &&& 0 <= p < db.packages@.len()
    &&& 0 <= a < db.packages@[p].artifacts@.len()
    &&& 0 <= c < db.packages@[p].artifacts@[a].case_names@.len()
}

/// Whether a row is one of the database's cases.
pub open spec fn row_of_db<M>(db: TestDb<M>, row: DbRowV) -> bool {
    exists|p: int, a: int, c: int| db_index_ok(db, p, a, c) && row == row_at(db, p, a, c)
}

/// Whether a row occurs in a row list.
pub open spec fn row_present(rows: Seq<DbRowV>, row: DbRowV) -> bool {
    exists|k: int| 0 <= k < rows.len() && rows[k] == row
}

/// The rows are exactly the database's cases: every row is a case and
/// every case has a row.
pub open spec fn rows_match_db<M>(db: TestDb<M>, rows: Seq<DbRowV>) -> bool {
    &&& forall|k: int| 0 <= k < rows.len() ==> row_of_db(db, #[trigger] rows[k])
    &&& forall|p: int, a: int, c: int|
        db_index_ok(db, p, a, c) ==> row_present(rows, #[trigger] row_at(db, p, a, c))
}

/// The rows are strictly sorted by their keys.
pub open spec fn rows_sorted(rows: Seq<DbRowV>) -> bool {
    forall|k: int, l: int| 0 <= k < l < rows.len() ==> row_lt(#[trigger] rows[k], #[trigger] rows[l])
}

proof fn lemma_row_lt_trans(a: DbRowV, b: DbRowV, c: DbRowV)
    requires
        row_lt(a, b),
        row_lt(b, c),
    ensures
        row_lt(a, c),
{
    if lex_lt(a.pkg, b.pkg) && lex_lt(b.pkg, c.pkg) {
        crate::text::lemma_lex_trans(a.pkg, b.pkg, c.pkg);
    } else if a.pkg == b.pkg && b.pkg == c.pkg {
        if lex_lt(a.art, b.art) && lex_lt(b.art, c.art) {
            crate::text::lemma_lex_trans(a.art, b.art, c.art);
        } else if a.art == b.art && b.art == c.art {
            crate::text::lemma_lex_trans(a.case, b.case, c.case);
        }
    }
}

proof fn lemma_rows_sorted_push(rows: Seq<DbRowV>, x: DbRowV)
    requires
        rows_sorted(rows),
        rows.len() == 0 || row_lt(rows.last(), x),
    ensures
        rows_sorted(rows.push(x)),
{
    let now = rows.push(x);
    assert forall|k: int, l: int| 0 <= k < l < now.len() implies row_lt(
        #[trigger] now[k],
        #[trigger] now[l],
    ) by {
        if l < rows.len() {
            assert(now[k] == rows[k] && now[l] == rows[l]);
        } else {
            assert(now[l] == x);
            assert(now[k] == rows[k]);
            if k < rows.len() - 1 {
                assert(row_lt(rows[k], rows[rows.len() - 1]));
                lemma_row_lt_trans(rows[k], rows.last(), x);
            }
        }
    }
}

/// The text of one case section, from its three key names and its record.
fn render_case_text(
    pkg_name: &String,
    art_key: &String,
    case_name: &String,
    rec: &TimingData,
) -> (r: Vec<char>)
    ensures
        r@ == render_row(
            DbRowV {
                pkg: pkg_name@,
                art: art_key@,
                case: case_name@,
                outcome: disk_record_of(*rec).0,
                timings: disk_record_of(*rec).1,
            },
        ),
{
    let (outcome, timings) = disk_record(rec);
    let mut out: Vec<char> = chars_of("\n[");
    out = crate::text::concat_chars(&out, &render_key(pkg_name));
    out.push('.');
    out = crate::text::concat_chars(&out, &render_key(art_key));
    out.push('.');
    out = crate::text::concat_chars(&out, &render_key(case_name));
    out = crate::text::concat_chars(&out, &chars_of("]\ntimings = ["));
    let ghost out_before = out@;
    let mut ti: usize = 0;
    proof {
        assert(timings@.take(0) =~= Seq::<u64>::empty());
    }
    while ti < timings.len()
        invariant
            ti <= timings@.len(),
            out@ == out_before + timings_text(timings@.take(ti as int)),
        decreases timings@.len() - ti,
    {
        if ti > 0 {
            out = crate::text::concat_chars(&out, &chars_of(", "));
        }
        out = crate::text::concat_chars(&out, &render_seconds(timings[ti]));
        proof {
            assert(timings@.take(ti + 1 as int).drop_last() =~= timings@.take(ti as int));
            assert(timings@.take(ti + 1 as int).last() == timings@[ti as int]);
            if ti == 0 {
                assert(timings@.take(1) =~= seq![timings@[0]]);
            }
            assert(out@ =~= out_before + timings_text(timings@.take(ti + 1 as int)));
        }
        ti = ti + 1;
    }
    out = crate::text::concat_chars(&out, &chars_of("]\noutcome = \""));
    out = crate::text::concat_chars(&out, &chars_of(outcome.word()));
    out = crate::text::concat_chars(&out, &chars_of("\"\n"));
    proof {
        assert(timings@.take(timings@.len() as int) =~= timings@);
        assert(out@ =~= render_row(
            DbRowV {
                pkg: pkg_name@,
                art: art_key@,
                case: case_name@,
                outcome: disk_record_of(*rec).0,
                timings: disk_record_of(*rec).1,
            },
        ));
    }
    out
}

/// Render a whole database as its table file: the version line, then one
/// section for every case and nothing else, the sections strictly sorted
/// by package, artifact and case name. Those conditions determine the text
/// completely.
#[verifier::rlimit(100)]
pub fn serialize_test_db(db: &TestDb<()>) -> (r: String)
    requires
        db.wf(),
    ensures
        exists|rows: Seq<DbRowV>|
            #![trigger render_rows(rows)]
            rows_match_db(*db, rows) && rows_sorted(rows) && r@ == "version = 3\n"@
                + render_rows(rows),
{
    let mut out = chars_of("version = 3\n");
    let ghost head = "version = 3\n"@;
    let ghost mut rows: Seq<DbRowV> = Seq::empty();
    proof {
        assert(render_rows(rows) =~= Seq::<char>::empty());
        assert(out@ =~= head + render_rows(rows));
    }
    let piter = sorted_indices(&db.package_names);
    let mut pi: usize = 0;
    while pi < piter.len()
        invariant
            pi <= piter@.len(),
            db.wf(),
            piter@.len() == db.package_names@.len(),
            forall|k: int| 0 <= k < piter@.len() ==> #[trigger] piter@[k] < db.packages@.len(),
            forall|k: int, l: int|
                0 <= k < l < piter@.len() ==> lex_lt(
                    db.package_names@[piter@[k] as int]@,
                    db.package_names@[piter@[l] as int]@,
                ),
            forall|v: int| 0 <= v < db.package_names@.len() ==> covered(piter@, v),
            out@ == head + render_rows(rows),
            rows_sorted(rows),
            forall|k: int| 0 <= k < rows.len() ==> row_of_db(*db, #[trigger] rows[k]),
            forall|x: int, a: int, c: int|
                #![trigger row_at(*db, piter@[x] as int, a, c)]
                0 <= x < pi && db_index_ok(*db, piter@[x] as int, a, c) ==> row_present(
                    rows,
                    row_at(*db, piter@[x] as int, a, c),
                ),
            pi == 0 ==> rows.len() == 0,
            rows.len() > 0 && pi > 0 ==> (lex_lt(
                rows.last().pkg,
                db.package_names@[piter@[pi as int - 1] as int]@,
            ) || rows.last().pkg == db.package_names@[piter@[pi as int - 1] as int]@),
        decreases piter@.len() - pi,
    {
        let p = piter[pi];
        let pkg = &db.packages[p];
        proof {
            assert(db.packages@[p as int].wf());
        }
        let aiter = sorted_indices(&pkg.artifact_keys);
        let mut ai: usize = 0;
        proof {
            if rows.len() > 0 && pi > 0 {
                let prev = db.package_names@[piter@[pi as int - 1] as int]@;
                let curn = db.package_names@[p as int]@;
                assert(lex_lt(prev, curn));
                if rows.last().pkg == prev {
                } else {
                    assert(lex_lt(rows.last().pkg, prev));
                    crate::text::lemma_lex_trans(rows.last().pkg, prev, curn);
                }
            }
        }
        while ai < aiter.len()
            invariant
                ai <= aiter@.len(),
                db.wf(),
                pkg.wf(),
                pi < piter@.len(),
                piter@.len() == db.package_names@.len(),
                forall|k: int| 0 <= k < piter@.len() ==> #[trigger] piter@[k]
                    < db.packages@.len(),
                forall|k: int, l: int|
                    0 <= k < l < piter@.len() ==> lex_lt(
                        db.package_names@[piter@[k] as int]@,
                        db.package_names@[piter@[l] as int]@,
                    ),
                p == piter@[pi as int],
                *pkg == db.packages@[p as int],
                aiter@.len() == pkg.artifact_keys@.len(),
                forall|k: int| 0 <= k < aiter@.len() ==> #[trigger] aiter@[k]
                    < pkg.artifacts@.len(),
                forall|k: int, l: int|
                    0 <= k < l < aiter@.len() ==> lex_lt(
                        pkg.artifact_keys@[aiter@[k] as int]@,
                        pkg.artifact_keys@[aiter@[l] as int]@,
                    ),
                forall|v: int| 0 <= v < pkg.artifact_keys@.len() ==> covered(aiter@, v),
                out@ == head + render_rows(rows),
                rows_sorted(rows),
                forall|k: int| 0 <= k < rows.len() ==> row_of_db(*db, #[trigger] rows[k]),
                forall|x: int, a: int, c: int|
                    #![trigger row_at(*db, piter@[x] as int, a, c)]
                    0 <= x < pi && db_index_ok(*db, piter@[x] as int, a, c) ==> row_present(
                        rows,
                        row_at(*db, piter@[x] as int, a, c),
                    ),
                forall|y: int, c: int|
                    #![trigger row_at(*db, p as int, aiter@[y] as int, c)]
                    0 <= y < ai && db_index_ok(*db, p as int, aiter@[y] as int, c)
                        ==> row_present(rows, row_at(*db, p as int, aiter@[y] as int, c)),
                rows.len() == 0 || lex_lt(rows.last().pkg, db.package_names@[p as int]@) || (
                rows.last().pkg == db.package_names@[p as int]@ && ai > 0 && (lex_lt(
                    rows.last().art,
                    pkg.artifact_keys@[aiter@[ai as int - 1] as int]@,
                ) || rows.last().art == pkg.artifact_keys@[aiter@[ai as int - 1] as int]@)),
            decreases aiter@.len() - ai,
        {
            let a = aiter[ai];
            let art = &pkg.artifacts[a];
            proof {
                assert(pkg.artifacts@[a as int].wf());
            }
            let citer = sorted_indices(&art.case_names);
            let mut ci: usize = 0;
            proof {
                if rows.len() > 0 {
                    if lex_lt(rows.last().pkg, db.package_names@[p as int]@) {
                    } else {
                        let prev = pkg.artifact_keys@[aiter@[ai as int - 1] as int]@;
                        let curk = pkg.artifact_keys@[a as int]@;
                        assert(lex_lt(prev, curk));
                        if rows.last().art == prev {
                        } else {
                            crate::text::lemma_lex_trans(rows.last().art, prev, curk);
                        }
                    }
                }
            }
            while ci < citer.len()
                invariant
                    ci <= citer@.len(),
                    db.wf(),
                    pkg.wf(),
                    art.wf(),
                    pi < piter@.len(),
                    ai < aiter@.len(),
                    piter@.len() == db.package_names@.len(),
                    forall|k: int| 0 <= k < piter@.len() ==> #[trigger] piter@[k]
                        < db.packages@.len(),
                    forall|k: int, l: int|
                        0 <= k < l < piter@.len() ==> lex_lt(
                            db.package_names@[piter@[k] as int]@,
                            db.package_names@[piter@[l] as int]@,
                        ),
                    forall|k: int, l: int|
                        0 <= k < l < aiter@.len() ==> lex_lt(
                            pkg.artifact_keys@[aiter@[k] as int]@,
                            pkg.artifact_keys@[aiter@[l] as int]@,
                        ),
                    p == piter@[pi as int],
                    a == aiter@[ai as int],
                    a < pkg.artifacts@.len(),
                    *pkg == db.packages@[p as int],
                    *art == pkg.artifacts@[a as int],
                    citer@.len() == art.case_names@.len(),
                    forall|k: int| 0 <= k < citer@.len() ==> #[trigger] citer@[k]
                        < art.case_timings@.len(),
                    forall|k: int, l: int|
                        0 <= k < l < citer@.len() ==> lex_lt(
                            art.case_names@[citer@[k] as int]@,
                            art.case_names@[citer@[l] as int]@,
                        ),
                    forall|v: int| 0 <= v < art.case_names@.len() ==> covered(citer@, v),
                    out@ == head + render_rows(rows),
                    rows_sorted(rows),
                    forall|k: int| 0 <= k < rows.len() ==> row_of_db(*db, #[trigger] rows[k]),
                    forall|x: int, aa: int, c: int|
                        #![trigger row_at(*db, piter@[x] as int, aa, c)]
                        0 <= x < pi && db_index_ok(*db, piter@[x] as int, aa, c)
                            ==> row_present(rows, row_at(*db, piter@[x] as int, aa, c)),
                    forall|y: int, c: int|
                        #![trigger row_at(*db, p as int, aiter@[y] as int, c)]
                        0 <= y < ai && db_index_ok(*db, p as int, aiter@[y] as int, c)
                            ==> row_present(rows, row_at(*db, p as int, aiter@[y] as int, c)),
                    forall|z: int|
                        #![trigger citer@[z]]
                        0 <= z < ci && db_index_ok(*db, p as int, a as int, citer@[z] as int)
                            ==> row_present(
                            rows,
                            row_at(*db, p as int, a as int, citer@[z] as int),
                        ),
                    rows.len() == 0 || lex_lt(rows.last().pkg, db.package_names@[p as int]@)
                        || (rows.last().pkg == db.package_names@[p as int]@ && (lex_lt(
                        rows.last().art,
                        pkg.artifact_keys@[a as int]@,
                    ) || (rows.last().art == pkg.artifact_keys@[a as int]@ && ci > 0
                        && rows.last().case == art.case_names@[citer@[ci as int - 1] as int]@))),
                decreases citer@.len() - ci,
            {
                let c = citer[ci];
                let ghost new_row = row_at(*db, p as int, a as int, c as int);
                let ghost pre_rows = rows;
                let ghost pre_out = out@;
                let piece = render_case_text(
                    &db.package_names[p],
                    &pkg.artifact_keys[a],
                    &art.case_names[c],
                    &art.case_timings[c],
                );
                out = crate::text::concat_chars(&out, &piece);
                proof {
                    assert(new_row =~= DbRowV {
                        pkg: db.package_names@[p as int]@,
                        art: pkg.artifact_keys@[a as int]@,
                        case: art.case_names@[c as int]@,
                        outcome: disk_record_of(art.case_timings@[c as int]).0,
                        timings: disk_record_of(art.case_timings@[c as int]).1,
                    });
                    rows = rows.push(new_row);
                    assert(rows.drop_last() =~= pre_rows);
                    assert(rows.last() == new_row);
                    assert(out@ =~= head + render_rows(rows));
                    if pre_rows.len() > 0 {
                        assert(row_lt(pre_rows.last(), new_row));
                    }
                    lemma_rows_sorted_push(pre_rows, new_row);
                    assert(db_index_ok(*db, p as int, a as int, c as int));
                    assert(rows[rows.len() - 1] == new_row);
                    assert forall|z: int|
                        #![trigger citer@[z]]
                        0 <= z < ci + 1 && db_index_ok(
                            *db,
                            p as int,
                            a as int,
                            citer@[z] as int,
                        ) implies row_present(
                        rows,
                        row_at(*db, p as int, a as int, citer@[z] as int),
                    ) by {
                        if z == ci as int {
                        } else {
                            assert(row_present(
                                pre_rows,
                                row_at(*db, p as int, a as int, citer@[z] as int),
                            ));
                            let k0 = choose|k0: int|
                                0 <= k0 < pre_rows.len() && pre_rows[k0] == row_at(
                                    *db,
                                    p as int,
                                    a as int,
                                    citer@[z] as int,
                                );
                            assert(rows[k0] == pre_rows[k0]);
                        }
                    }
                    assert forall|x: int, aa: int, c2: int|
                        #![trigger row_at(*db, piter@[x] as int, aa, c2)]
                        0 <= x < pi && db_index_ok(*db, piter@[x] as int, aa, c2)
                            implies row_present(
                        rows,
                        row_at(*db, piter@[x] as int, aa, c2),
                    ) by {
                        assert(row_present(pre_rows, row_at(*db, piter@[x] as int, aa, c2)));
                        let k0 = choose|k0: int|
                            0 <= k0 < pre_rows.len() && pre_rows[k0] == row_at(
                                *db,
                                piter@[x] as int,
                                aa,
                                c2,
                            );
                        assert(rows[k0] == pre_rows[k0]);
                    }
                    assert forall|y: int, c2: int|
                        #![trigger row_at(*db, p as int, aiter@[y] as int, c2)]
                        0 <= y < ai && db_index_ok(*db, p as int, aiter@[y] as int, c2)
                            implies row_present(
                        rows,
                        row_at(*db, p as int, aiter@[y] as int, c2),
                    ) by {
                        assert(row_present(
                            pre_rows,
                            row_at(*db, p as int, aiter@[y] as int, c2),
                        ));
                        let k0 = choose|k0: int|
                            0 <= k0 < pre_rows.len() && pre_rows[k0] == row_at(
                                *db,
                                p as int,
                                aiter@[y] as int,
                                c2,
                            );
                        assert(rows[k0] == pre_rows[k0]);
                    }
                }
                ci = ci + 1;
            }
            proof {
                assert forall|y: int, c2: int|
                    #![trigger row_at(*db, p as int, aiter@[y] as int, c2)]
                    0 <= y < ai + 1 && db_index_ok(*db, p as int, aiter@[y] as int, c2)
                        implies row_present(
                    rows,
                    row_at(*db, p as int, aiter@[y] as int, c2),
                ) by {
                    if y == ai as int {
                        assert(0 <= c2 < art.case_names@.len());
                        assert(covered(citer@, c2));
                        let z = choose|z: int| 0 <= z < citer@.len() && citer@[z] == c2;
                        assert(db_index_ok(*db, p as int, a as int, citer@[z] as int));
                        assert(row_present(
                            rows,
                            row_at(*db, p as int, a as int, citer@[z] as int),
                        ));
                    }
                }
            }
            ai = ai + 1;
        }
        proof {
            assert forall|x: int, a2: int, c2: int|
                #![trigger row_at(*db, piter@[x] as int, a2, c2)]
                0 <= x < pi + 1 && db_index_ok(*db, piter@[x] as int, a2, c2)
                    implies row_present(
                rows,
                row_at(*db, piter@[x] as int, a2, c2),
            ) by {
                if x == pi as int {
                    assert(0 <= a2 < pkg.artifact_keys@.len());
                    assert(covered(aiter@, a2));
                    let y = choose|y: int| 0 <= y < aiter@.len() && aiter@[y] == a2;
                    assert(db_index_ok(*db, p as int, aiter@[y] as int, c2));
                    assert(row_present(
                        rows,
                        row_at(*db, p as int, aiter@[y] as int, c2),
                    ));
                }
            }
        }
        pi = pi + 1;
    }
    proof {
        assert forall|p: int, a: int, c: int|
            db_index_ok(*db, p, a, c) implies row_present(
            rows,
            #[trigger] row_at(*db, p, a, c),
        ) by {
            assert(covered(piter@, p));
            let x = choose|x: int| 0 <= x < piter@.len() && piter@[x] == p;
            assert(row_present(rows, row_at(*db, piter@[x] as int, a, c)));
        }
        assert(rows_match_db(*db, rows));
    }
    string_of(&out)
}

/// What the file system must do for the store.
pub trait TestDbStoreDeps {
    /// Read a whole file, or nothing when it does not exist.
    fn read_to_string_if_exists(&self, path: &String) -> (r: Result<Option<String>, String>);

    /// Create a directory and its parents.
    fn create_dir_all(&self, path: &String) -> (r: Result<(), String>);

    /// Write a whole file.
    fn write(&self, path: &String, contents: &String) -> (r: Result<(), String>);
}

/// The store: where the database file lives and how to reach it.
pub struct TestDbStore<DepsT> {
    pub deps: DepsT,
    pub test_listing_file: String,
}

/// A directory joined with a file name: a separator is inserted unless the
/// directory already ends with one.
pub open spec fn path_join(dir: Seq<char>, file: Seq<char>) -> Seq<char> {
    if dir.len() > 0 && dir.last() == '/' {
        dir + file
    } else {
        dir + seq!['/'] + file
    }
}

/// The directory part of a path: everything before the last separator;
/// empty when there is none.
pub open spec fn path_parent(path: Seq<char>) -> Seq<char> {
    match last_idx(path, '/') {
        Some(i) => path.subrange(0, i),
        None => Seq::empty(),
    }
}

fn join_path(dir: &String, file: &String) -> (r: String)
    ensures
        r@ == path_join(dir@, file@),
{
    let cs = chars_of(dir.as_str());
    let mut out = cs;
    if out.len() > 0 && out[out.len() - 1] == '/' {
    } else {
        out.push('/');
        proof {
            assert(out@ =~= dir@ + seq!['/']);
        }
    }
    let f = chars_of(file.as_str());
    let joined = crate::text::concat_chars(&out, &f);
    proof {
        assert(joined@ =~= path_join(dir@, file@));
    }
    string_of(&joined)
}

fn parent_of(path: &String) -> (r: String)
    ensures
        r@ == path_parent(path@),
{
    let cs = chars_of(path.as_str());
    let mut end = cs.len();
    while end > 0 && cs[end - 1] != '/'
        invariant
            end <= cs@.len(),
            forall|j: int| end <= j < cs@.len() ==> cs@[j] != '/',
        decreases end,
    {
        end = end - 1;
    }
    if end > 0 {
        proof {
            lemma_last_idx_found(path@, '/', end - 1);
        }
        let sliced = crate::text::slice_chars(&cs, 0, end - 1);
        string_of(&sliced)
    } else {
        proof {
            lemma_last_idx_not_found(path@, '/');
        }
        String::new()
    }
}

impl<DepsT> TestDbStore<DepsT> {
    /// A store whose database file is `test-listing.toml` under the given
    /// state directory.
    pub fn new(deps: DepsT, state_dir: &String) -> (r: Self)
        ensures
            r.deps == deps,
            r.test_listing_file@ == path_join(state_dir@, "test-listing.toml"@),
    {
        let file = join_path(state_dir, &test_db_file_name());
        TestDbStore { deps, test_listing_file: file }
    }
}

fn timing_values(v: &TomlValue) -> (r: Result<Vec<u64>, String>) {
    let items = match v {
        TomlValue::Array(items) => items,
        _ => {
            return Err(String::from_str("TOML parse error: timings must be a list"));
        },
    };
    let mut out: Vec<u64> = Vec::new();
    let mut i: usize = 0;
    while i < items.len()
        invariant
            i <= items@.len(),
        decreases items@.len() - i,
    {
        match &items[i] {
            TomlValue::Decimal { units, nanos } => {
                if *units > 18000000000 {
                    return Err(String::from_str("TOML parse error: duration too large"));
                }
                out.push(*units * 1000000000 + (*nanos as u64));
            },
            TomlValue::Int(n) => {
                if *n > 18000000000 {
                    return Err(String::from_str("TOML parse error: duration too large"));
                }
                out.push(*n * 1000000000);
            },
            _ => {
                return Err(String::from_str("TOML parse error: bad duration"));
            },
        }
        i = i + 1;
    }
    Ok(out)
}

/// Whether some root entry is a `version` line that is not an integer.
pub open spec fn root_has_bad_version(root: Seq<crate::toml_text::TomlKeyVal>) -> bool {
    exists|i: int|
        0 <= i < root.len() && (#[trigger] root[i]).path@.len() == 1 && root[i].path@[0]@
            == "version"@ && !(root[i].value matches TomlValue::Int(_))
}

/// The last integer `version` line of the root, if any.
pub open spec fn root_version(root: Seq<crate::toml_text::TomlKeyVal>) -> Option<u64>
    decreases root.len(),
{
    if root.len() == 0 {
        None
    } else if root.last().path@.len() == 1 && root.last().path@[0]@ == "version"@
        && root.last().value matches TomlValue::Int(_) {
        match root.last().value {
            TomlValue::Int(n) => Some(n),
            _ => None,
        }
    } else {
        root_version(root.drop_last())
    }
}

/// Interpret a parsed document as the database. The outcomes: a `version`
/// line that is not an integer is an error; no `version` line is an error;
/// an integer version other than the one this codec writes loads as the
/// empty database; the right version loads the sections, each of which
/// must be a three-key case section, or errors.
pub fn db_from_doc(doc: &crate::toml_text::TomlDoc) -> (r: Result<TestDb<()>, String>)
    ensures
        root_has_bad_version(doc.root@) ==> (r matches Err(e) && e@
            == "version field is not an integer"@),
        !root_has_bad_version(doc.root@) && root_version(doc.root@) is None ==> (r matches Err(
            e,
        ) && e@ == "missing version"@),
        !root_has_bad_version(doc.root@) && (root_version(doc.root@) matches Some(v) && v
            != TEST_DB_VERSION) ==> (r matches Ok(db) && db.wf() && db.package_names@.len()
            == 0),
        r matches Ok(db) ==> db.wf(),
        !root_has_bad_version(doc.root@) && root_version(doc.root@) == Some(TEST_DB_VERSION)
            && r is Ok ==> forall|i: int|
            0 <= i < doc.sections@.len() ==> (#[trigger] doc.sections@[i]).path@.len() == 3
                && !doc.sections@[i].is_array,
{
    let mut version: Option<u64> = None;
    let mut bad_version = false;
    let mut ri: usize = 0;
    proof {
        assert(doc.root@.take(0) =~= Seq::<crate::toml_text::TomlKeyVal>::empty());
    }
    while ri < doc.root.len()
        invariant
            ri <= doc.root@.len(),
            bad_version == root_has_bad_version(doc.root@.take(ri as int)),
            version == root_version(doc.root@.take(ri as int)),
        decreases doc.root@.len() - ri,
    {
        let kv = &doc.root[ri];
        proof {
            assert(doc.root@.take(ri + 1 as int).drop_last() =~= doc.root@.take(ri as int));
            assert(doc.root@.take(ri + 1 as int).last() == doc.root@[ri as int]);
        }
        if kv.path.len() == 1 && crate::text::str_is(&kv.path[0], "version") {
            match &kv.value {
                TomlValue::Int(n) => {
                    version = Some(*n);
                },
                _ => {
                    bad_version = true;
                },
            }
        }
        proof {
            let pre = doc.root@.take(ri as int);
            let cur = doc.root@.take(ri + 1 as int);
            assert forall|i: int|
                0 <= i < cur.len() implies (cur[i] == doc.root@[i]) by {}
            if root_has_bad_version(cur) && !root_has_bad_version(pre) {
                let w = choose|w: int|
                    0 <= w < cur.len() && (#[trigger] cur[w]).path@.len() == 1 && cur[w].path@[
                        0
                    ]@ == "version"@ && !(cur[w].value matches TomlValue::Int(_));
                assert(w == ri as int);
            }
        }
        ri = ri + 1;
    }
    proof {
        assert(doc.root@.take(doc.root@.len() as int) =~= doc.root@);
    }
    if bad_version {
        return Err(String::from_str("version field is not an integer"));
    }
    let version = match version {
        Some(v) => v,
        None => {
            return Err(String::from_str("missing version"));
        },
    };
    if version != TEST_DB_VERSION {
        return Ok(TestDb::new());
    }
    let mut db: TestDb<()> = TestDb::new();
    let mut si: usize = 0;
    while si < doc.sections.len()
        invariant
            si <= doc.sections@.len(),
            db.wf(),
            !root_has_bad_version(doc.root@),
            root_version(doc.root@) == Some(TEST_DB_VERSION),
            forall|i: int|
                0 <= i < si ==> (#[trigger] doc.sections@[i]).path@.len() == 3
                    && !doc.sections@[i].is_array,
        decreases doc.sections@.len() - si,
    {
        let sec = &doc.sections[si];
        if !(sec.path.len() == 3 && !sec.is_array) {
            return Err(String::from_str("TOML parse error: bad section"));
        }
        let mut timings: Vec<u64> = Vec::new();
        let mut outcome = OnDiskCaseOutcome::Success;
        let mut ei: usize = 0;
        while ei < sec.entries.len()
            invariant
                ei <= sec.entries@.len(),
                !root_has_bad_version(doc.root@),
                root_version(doc.root@) == Some(TEST_DB_VERSION),
            decreases sec.entries@.len() - ei,
        {
            let kv = &sec.entries[ei];
            if kv.path.len() == 1 && crate::text::str_is(&kv.path[0], "timings") {
                timings = match timing_values(&kv.value) {
                    Ok(t) => t,
                    Err(e) => {
                        return Err(e);
                    },
                };
            } else if kv.path.len() == 1 && crate::text::str_is(&kv.path[0], "outcome") {
                match &kv.value {
                    TomlValue::Str(s) => {
                        if crate::text::str_is(s, "success") {
                            outcome = OnDiskCaseOutcome::Success;
                        } else if crate::text::str_is(s, "failure") {
                            outcome = OnDiskCaseOutcome::Failure;
                        } else if crate::text::str_is(s, "new") {
                            outcome = OnDiskCaseOutcome::New;
                        } else {
                            return Err(String::from_str("TOML parse error: bad outcome"));
                        }
                    },
                    _ => {
                        return Err(String::from_str("TOML parse error: bad outcome"));
                    },
                }
            } else {
                return Err(String::from_str("TOML parse error: bad case field"));
            }
            ei = ei + 1;
        }
        let data = read_record(outcome, timings);
        insert_case(&mut db, &sec.path[0], &sec.path[1], &sec.path[2], data);
        si = si + 1;
    }
    Ok(db)
}

impl<DepsT: TestDbStoreDeps> TestDbStore<DepsT> {
    /// Load the database. A missing file yields the empty database; text
    /// that is not a well-formed document is an error; otherwise the
    /// outcome is exactly [`db_from_doc`]'s, version errors included.
    pub fn load(&self) -> (r: Result<TestDb<()>, String>)
        ensures
            r matches Ok(db) ==> db.wf(),
    {
        let contents = match self.deps.read_to_string_if_exists(&self.test_listing_file) {
            Ok(Some(c)) => c,
            Ok(None) => {
                return Ok(TestDb::new());
            },
            Err(e) => {
                return Err(e);
            },
        };
        let doc = match parse_toml(contents.as_str()) {
            Ok(d) => d,
            Err(_) => {
                return Err(String::from_str("TOML parse error: not a table"));
            },
        };
        db_from_doc(&doc)
    }

    /// Save the database, creating the state directory first. What is
    /// written is exactly [`serialize_test_db`] of the database, at the
    /// store's file; a directory or write error propagates.
    pub fn save(&self, db: &TestDb<()>) -> (r: Result<(), String>)
        requires
            db.wf(),
    {
        let parent = parent_of(&self.test_listing_file);
        match self.deps.create_dir_all(&parent) {
            Ok(()) => {},
            Err(e) => {
                return Err(e);
            },
        }
        let text = serialize_test_db(db);
        self.deps.write(&self.test_listing_file, &text)
    }
}

/// Enter one case read from disk/// Enter one case read from disk, creating its package and artifact as
/// needed; a record read twice keeps the later copy.
fn insert_case(
    db: &mut TestDb<()>,
    package: &String,
    artifact: &String,
    case: &String,
    data: TimingData,
)
    requires
        old(db).wf(),
    ensures
        final(db).wf(),
{
    let pidx: usize = match crate::test_db::find_name_public(&db.package_names, package) {
        Some(i) => i,
        None => {
            proof {
                crate::test_db::lemma_name_index_props(db.package_names@, package@);
            }
            db.package_names.push(package.clone());
            db.packages.push(Package::empty());
            db.packages.len() - 1
        },
    };
    proof {
        assert(db.wf()) by {
            if db.package_names@.len() != old(db).package_names@.len() {
                assert(forall|i: int|
                    0 <= i < db.packages@.len() - 1 ==> db.packages@[i]
                        == old(db).packages@[i]);
            }
        }
    }
    let ghost packages_mid = db.packages@;
    let mut pkg = Package::empty();
    db.packages.set_and_swap(pidx, &mut pkg);
    proof {
        assert(pkg == packages_mid[pidx as int]);
        assert(pkg.wf());
    }
    let ghost pkg0 = pkg;
    let aidx: usize = match crate::test_db::find_name_public(&pkg.artifact_keys, artifact) {
        Some(i) => i,
        None => {
            proof {
                crate::test_db::lemma_name_index_props(pkg.artifact_keys@, artifact@);
            }
            pkg.artifact_keys.push(artifact.clone());
            pkg.artifacts.push(Artifact::empty());
            pkg.artifacts.len() - 1
        },
    };
    proof {
        assert(pkg.wf()) by {
            if pkg.artifact_keys@.len() != pkg0.artifact_keys@.len() {
                assert(forall|i: int|
                    0 <= i < pkg.artifacts@.len() - 1 ==> pkg.artifacts@[i]
                        == pkg0.artifacts@[i]);
            }
        }
    }
    let ghost arts_mid = pkg.artifacts@;
    let mut art = Artifact::empty();
    pkg.artifacts.set_and_swap(aidx, &mut art);
    proof {
        assert(art == arts_mid[aidx as int]);
        assert(art.wf());
    }
    let ghost art0 = art;
    match crate::test_db::find_name_public(&art.case_names, case) {
        Some(cidx) => {
            art.case_timings.set(cidx, data);
        },
        None => {
            proof {
                crate::test_db::lemma_name_index_props(art.case_names@, case@);
            }
            art.case_names.push(case.clone());
            art.case_metas.push(());
            art.case_timings.push(data);
        },
    }
    proof {
        assert(art.wf()) by {
            if art.case_names@.len() != art0.case_names@.len() {
                assert(forall|i: int, j: int|
                    0 <= i < j < art.case_names@.len() && j < art0.case_names@.len()
                        ==> art.case_names@[i]@ != art.case_names@[j]@);
            }
        }
    }
    pkg.artifacts.set_and_swap(aidx, &mut art);
    proof {
        assert(pkg.wf()) by {
            assert(forall|i: int|
                0 <= i < pkg.artifacts@.len() && i != aidx as int ==> pkg.artifacts@[i]
                    == arts_mid[i]);
        }
    }
    db.packages.set_and_swap(pidx, &mut pkg);
    proof {
        assert(db.wf()) by {
            assert(forall|i: int|
                0 <= i < db.packages@.len() && i != pidx as int ==> db.packages@[i]
                    == packages_mid[i]);
        }
    }
}

} // verus!
