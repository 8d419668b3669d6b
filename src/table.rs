//! The rows of the output table, their keys and counters, the order in which
//! they are listed, and what a table holds under each key.

use vstd::prelude::*;
use crate::record::{Outcome, SexGroup};
use crate::text::{compare_text, lemma_text_lt_irreflexive, lemma_text_lt_total, lemma_text_lt_transitive, text_lt};

verus! {

/// The key of an output row: jurisdiction, sex group and report period.
pub ghost struct GroupKey {
    pub jurisdiction: Seq<char>,
    pub sex: SexGroup,
    pub period: Seq<char>,
}

/// The seven counters of an output row, as mathematical integers.
pub ghost struct Tally {
    pub cases: nat,
    pub hosp_yes: nat,
    pub hosp_no: nat,
    pub hosp_unknown: nat,
    pub death_yes: nat,
    pub death_no: nat,
    pub death_unknown: nat,
}

pub open spec fn zero_tally() -> Tally {
    Tally {
        cases: 0,
        hosp_yes: 0,
        hosp_no: 0,
        hosp_unknown: 0,
        death_yes: 0,
        death_no: 0,
        death_unknown: 0,
    }
}

pub open spec fn plus(a: Tally, b: Tally) -> Tally {
    Tally {
        cases: a.cases + b.cases,
        hosp_yes: a.hosp_yes + b.hosp_yes,
        hosp_no: a.hosp_no + b.hosp_no,
        hosp_unknown: a.hosp_unknown + b.hosp_unknown,
        death_yes: a.death_yes + b.death_yes,
        death_no: a.death_no + b.death_no,
        death_unknown: a.death_unknown + b.death_unknown,
    }
}

pub open spec fn indicator(b: bool) -> nat {
    if b { 1 } else { 0 }
}

/// What one case with the given outcomes adds to the counters of its group.
pub open spec fn unit_tally(hosp: Outcome, death: Outcome) -> Tally {
    Tally {
        cases: 1,
        hosp_yes: indicator(hosp == Outcome::Yes),
        hosp_no: indicator(hosp == Outcome::No),
        hosp_unknown: indicator(hosp == Outcome::Unknown),
        death_yes: indicator(death == Outcome::Yes),
        death_no: indicator(death == Outcome::No),
        death_unknown: indicator(death == Outcome::Unknown),
    }
}

/// Each outcome splits the cases into yes, no and unknown.
pub open spec fn partitioned(t: Tally) -> bool {
    &&& t.hosp_yes + t.hosp_no + t.hosp_unknown == t.cases
    &&& t.death_yes + t.death_no + t.death_unknown == t.cases
}

/// The order of output rows: by jurisdiction, then sex group, then period.
pub open spec fn key_lt(a: GroupKey, b: GroupKey) -> bool {
    ||| text_lt(a.jurisdiction, b.jurisdiction)
    ||| (a.jurisdiction == b.jurisdiction && a.sex.rank() < b.sex.rank())
    ||| (a.jurisdiction == b.jurisdiction && a.sex == b.sex && text_lt(a.period, b.period))
}

pub proof fn lemma_key_lt_irreflexive(a: GroupKey)
    ensures
        !key_lt(a, a),
{
    lemma_text_lt_irreflexive(a.jurisdiction);
    lemma_text_lt_irreflexive(a.period);
}

pub proof fn lemma_key_lt_total(a: GroupKey, b: GroupKey)
    ensures
        a == b || key_lt(a, b) || key_lt(b, a),
        !(key_lt(a, b) && key_lt(b, a)),
{
    lemma_text_lt_total(a.jurisdiction, b.jurisdiction);
    lemma_text_lt_total(a.period, b.period);
    lemma_text_lt_irreflexive(a.jurisdiction);
    lemma_text_lt_irreflexive(a.period);
}

pub proof fn lemma_key_lt_transitive(a: GroupKey, b: GroupKey, c: GroupKey)
    requires
        key_lt(a, b),
        key_lt(b, c),
    ensures
        key_lt(a, c),
{
    lemma_text_lt_irreflexive(a.jurisdiction);
    lemma_text_lt_irreflexive(b.jurisdiction);
    lemma_text_lt_total(a.jurisdiction, b.jurisdiction);
    lemma_text_lt_total(b.jurisdiction, c.jurisdiction);
    if text_lt(a.jurisdiction, b.jurisdiction) && text_lt(b.jurisdiction, c.jurisdiction) {
        lemma_text_lt_transitive(a.jurisdiction, b.jurisdiction, c.jurisdiction);
    }
    if text_lt(a.period, b.period) && text_lt(b.period, c.period) {
        lemma_text_lt_transitive(a.period, b.period, c.period);
    }
}

/// One row of the output table. Written out, its columns are `state_postal`,
/// `sex`, `time_period`, `cases`, `hosp_y`, `hosp_n`, `hosp_unknown`,
/// `death_y`, `death_n` and `death_unknown`, in that order.
pub struct AggregateRow {
    pub state_postal: String,
    pub sex: SexGroup,
    pub time_period: String,
    pub cases: u64,
    pub hosp_y: u64,
    pub hosp_n: u64,
    pub hosp_unknown: u64,
    pub death_y: u64,
    pub death_n: u64,
    pub death_unknown: u64,
}

impl AggregateRow {
    pub open spec fn key(&self) -> GroupKey {
        GroupKey { jurisdiction: self.state_postal@, sex: self.sex, period: self.time_period@ }
    }

    pub open spec fn counts(&self) -> Tally {
        Tally {
            cases: self.cases as nat,
            hosp_yes: self.hosp_y as nat,
            hosp_no: self.hosp_n as nat,
            hosp_unknown: self.hosp_unknown as nat,
            death_yes: self.death_y as nat,
            death_no: self.death_n as nat,
            death_unknown: self.death_unknown as nat,
        }
    }
}

/// Keys strictly ascend down the table, so no key occurs twice.
pub open spec fn sorted_keys(rows: Seq<AggregateRow>) -> bool {
    forall|i: int, j: int|
        0 <= i < j < rows.len() ==> key_lt(#[trigger] rows[i].key(), #[trigger] rows[j].key())
}

/// Every row stands for at least one case, and each outcome splits its cases.
pub open spec fn rows_consistent(rows: Seq<AggregateRow>) -> bool {
    forall|i: int| 0 <= i < rows.len() ==> {
        &&& (#[trigger] rows[i]).cases > 0
        &&& partitioned(rows[i].counts())
    }
}

/// The counters that a table holds under key `k`, summed over its rows.
pub open spec fn count_of(rows: Seq<AggregateRow>, k: GroupKey) -> Tally
    decreases rows.len(),
{
    if rows.len() == 0 {
        zero_tally()
    } else {
        let rest = count_of(rows.drop_last(), k);
        if rows.last().key() == k {
            plus(rest, rows.last().counts())
        } else {
            rest
        }
    }
}

pub proof fn lemma_count_of_concat(a: Seq<AggregateRow>, b: Seq<AggregateRow>, k: GroupKey)
    ensures
        count_of(a + b, k) == plus(count_of(a, k), count_of(b, k)),
    decreases b.len(),
{
    if b.len() == 0 {
        assert(a + b =~= a);
    } else {
        assert((a + b).drop_last() =~= a + b.drop_last());
        lemma_count_of_concat(a, b.drop_last(), k);
    }
}

pub proof fn lemma_count_of_single(x: AggregateRow, k: GroupKey)
    ensures
        count_of(seq![x], k) == (if x.key() == k { x.counts() } else { zero_tally() }),
{
    assert(seq![x].drop_last() =~= Seq::<AggregateRow>::empty());
    assert(count_of(seq![x].drop_last(), k) == zero_tally());
    assert(seq![x].last() == x);
}

pub proof fn lemma_count_of_absent(rows: Seq<AggregateRow>, k: GroupKey)
    requires
        forall|i: int| 0 <= i < rows.len() ==> (#[trigger] rows[i]).key() != k,
    ensures
        count_of(rows, k) == zero_tally(),
    decreases rows.len(),
{
    if rows.len() > 0 {
        lemma_count_of_absent(rows.drop_last(), k);
    }
}

/// In a sorted table, the counters under a row's key are that row's counters.
pub proof fn lemma_count_of_sorted(rows: Seq<AggregateRow>, j: int)
    requires
        sorted_keys(rows),
        0 <= j < rows.len(),
    ensures
        count_of(rows, rows[j].key()) == rows[j].counts(),
{
    let k = rows[j].key();
    let before = rows.take(j);
    let after = rows.skip(j + 1);
    assert(rows =~= before + seq![rows[j]] + after);
    assert forall|i: int| 0 <= i < before.len() implies (#[trigger] before[i]).key() != k by {
        assert(key_lt(rows[i].key(), k));
        lemma_key_lt_irreflexive(k);
    }
    assert forall|i: int| 0 <= i < after.len() implies (#[trigger] after[i]).key() != k by {
        assert(key_lt(k, rows[j + 1 + i].key()));
        lemma_key_lt_irreflexive(k);
    }
    lemma_count_of_absent(before, k);
    lemma_count_of_absent(after, k);
    lemma_count_of_concat(before + seq![rows[j]], after, k);
    lemma_count_of_concat(before, seq![rows[j]], k);
    lemma_count_of_single(rows[j], k);
}

impl AggregateRow {
    /// A new row for the first case of a group.
    pub fn first_case(
        state_postal: String,
        sex: SexGroup,
        time_period: String,
        hosp: Outcome,
        death: Outcome,
    ) -> (r: AggregateRow)
        ensures
            r.key() == (GroupKey { jurisdiction: state_postal@, sex, period: time_period@ }),
            r.counts() == unit_tally(hosp, death),
    {
        AggregateRow {
            state_postal,
            sex,
            time_period,
            cases: 1,
            hosp_y: if hosp == Outcome::Yes { 1 } else { 0 },
            hosp_n: if hosp == Outcome::No { 1 } else { 0 },
            hosp_unknown: if hosp == Outcome::Unknown { 1 } else { 0 },
            death_y: if death == Outcome::Yes { 1 } else { 0 },
            death_n: if death == Outcome::No { 1 } else { 0 },
            death_unknown: if death == Outcome::Unknown { 1 } else { 0 },
        }
    }

    /// A copy of this row with one more case with the given outcomes.
    pub fn with_case(&self, hosp: Outcome, death: Outcome) -> (r: AggregateRow)
        requires
            self.cases < u64::MAX,
            partitioned(self.counts()),
        ensures
            r.key() == self.key(),
            r.counts() == plus(self.counts(), unit_tally(hosp, death)),
    {
        AggregateRow {
            state_postal: self.state_postal.clone(),
            sex: self.sex,
            time_period: self.time_period.clone(),
            cases: self.cases + 1,
            hosp_y: if hosp == Outcome::Yes { self.hosp_y + 1 } else { self.hosp_y },
            hosp_n: if hosp == Outcome::No { self.hosp_n + 1 } else { self.hosp_n },
            hosp_unknown: if hosp == Outcome::Unknown { self.hosp_unknown + 1 } else { self.hosp_unknown },
            death_y: if death == Outcome::Yes { self.death_y + 1 } else { self.death_y },
            death_n: if death == Outcome::No { self.death_n + 1 } else { self.death_n },
            death_unknown: if death == Outcome::Unknown { self.death_unknown + 1 } else { self.death_unknown },
        }
    }

    /// Compares this row's key with the key made of the given parts.
    pub fn compare_key(&self, state_postal: &String, sex: SexGroup, time_period: &String) -> (r: core::cmp::Ordering)
        ensures
            ({
                let k = GroupKey { jurisdiction: state_postal@, sex, period: time_period@ };
                &&& (r == core::cmp::Ordering::Less) == key_lt(self.key(), k)
                &&& (r == core::cmp::Ordering::Equal) == (self.key() == k)
                &&& (r == core::cmp::Ordering::Greater) == key_lt(k, self.key())
            }),
    {
        let k = Ghost(GroupKey { jurisdiction: state_postal@, sex, period: time_period@ });
        proof {
            lemma_key_lt_total(self.key(), k@);
            lemma_key_lt_irreflexive(k@);
        }
        let by_place = compare_text(self.state_postal.as_str(), state_postal.as_str());
        if !matches!(by_place, core::cmp::Ordering::Equal) {
            return by_place;
        }
        let a = self.sex.rank_of();
        let b = sex.rank_of();
        if a < b {
            return core::cmp::Ordering::Less;
        }
        if b < a {
            return core::cmp::Ordering::Greater;
        }
        compare_text(self.time_period.as_str(), time_period.as_str())
    }
}

/// The place of key (`state_postal`, `sex`, `time_period`) in a sorted table:
/// every row before it has a smaller key, and no row from it on a smaller one.
pub fn find_slot(table: &Vec<AggregateRow>, state_postal: &String, sex: SexGroup, time_period: &String) -> (p: usize)
    requires
        sorted_keys(table@),
    ensures
        p <= table@.len(),
        ({
            let k = GroupKey { jurisdiction: state_postal@, sex, period: time_period@ };
            &&& forall|q: int| 0 <= q < p ==> key_lt(#[trigger] table@[q].key(), k)
            &&& forall|q: int| p <= q < table@.len() ==> !key_lt(#[trigger] table@[q].key(), k)
        }),
{
    let ghost k0 = GroupKey { jurisdiction: state_postal@, sex, period: time_period@ };
    let mut lo: usize = 0;
    let mut hi: usize = table.len();
    while lo < hi
        invariant
            k0 == (GroupKey { jurisdiction: state_postal@, sex, period: time_period@ }),
            sorted_keys(table@),
            lo <= hi <= table@.len(),
            forall|q: int| 0 <= q < lo ==> key_lt(#[trigger] table@[q].key(), k0),
            forall|q: int| hi <= q < table@.len() ==> !key_lt(#[trigger] table@[q].key(), k0),
        decreases hi - lo,
    {
        let mid = lo + (hi - lo) / 2;
        let c = table[mid].compare_key(state_postal, sex, time_period);
        if matches!(c, core::cmp::Ordering::Less) {
            proof {
                assert forall|q: int| 0 <= q < mid + 1 implies key_lt(#[trigger] table@[q].key(), k0) by {
                    if q < mid {
                        lemma_key_lt_transitive(table@[q].key(), table@[mid as int].key(), k0);
                    }
                }
            }
            lo = mid + 1;
        } else {
            proof {
                assert forall|q: int| mid <= q < table@.len() implies !key_lt(#[trigger] table@[q].key(), k0) by {
                    if q > mid {
                        lemma_key_lt_total(table@[mid as int].key(), k0);
                        if key_lt(table@[q].key(), k0) {
                            lemma_key_lt_transitive(table@[mid as int].key(), table@[q].key(), k0);
                            lemma_key_lt_irreflexive(k0);
                        }
                    }
                }
            }
            hi = mid;
        }
    }
    lo
}

/// Counters after a row is put at place `p`: its key gains its counters.
pub proof fn lemma_count_of_insert(rows: Seq<AggregateRow>, p: int, x: AggregateRow, k: GroupKey)
    requires
        0 <= p <= rows.len(),
    ensures
        count_of(rows.insert(p, x), k) == if k == x.key() {
            plus(count_of(rows, k), x.counts())
        } else {
            count_of(rows, k)
        },
{
    let left = rows.take(p);
    let right = rows.skip(p);
    assert(rows =~= left + right);
    assert(rows.insert(p, x) =~= left + seq![x] + right);
    lemma_count_of_concat(left, right, k);
    lemma_count_of_concat(left + seq![x], right, k);
    lemma_count_of_concat(left, seq![x], k);
    lemma_count_of_single(x, k);
}

/// Counters after the row at place `p` is replaced by one of the same key
/// that holds `u` more.
pub proof fn lemma_count_of_update(rows: Seq<AggregateRow>, p: int, x: AggregateRow, u: Tally, k: GroupKey)
    requires
        0 <= p < rows.len(),
        x.key() == rows[p].key(),
        x.counts() == plus(rows[p].counts(), u),
    ensures
        count_of(rows.update(p, x), k) == if k == x.key() {
            plus(count_of(rows, k), u)
        } else {
            count_of(rows, k)
        },
{
    let left = rows.take(p);
    let right = rows.skip(p + 1);
    let y = rows[p];
    assert(rows =~= left + seq![y] + right);
    assert(rows.update(p, x) =~= left + seq![x] + right);
    lemma_count_of_concat(left + seq![y], right, k);
    lemma_count_of_concat(left, seq![y], k);
    lemma_count_of_single(y, k);
    lemma_count_of_concat(left + seq![x], right, k);
    lemma_count_of_concat(left, seq![x], k);
    lemma_count_of_single(x, k);
}

/// A key that sorts after the rows before `p` and before the rows from `p`
/// on keeps the table sorted when put there.
pub proof fn lemma_sorted_insert(rows: Seq<AggregateRow>, p: int, x: AggregateRow)
    requires
        sorted_keys(rows),
        0 <= p <= rows.len(),
        forall|q: int| 0 <= q < p ==> key_lt(#[trigger] rows[q].key(), x.key()),
        forall|q: int| p <= q < rows.len() ==> key_lt(x.key(), #[trigger] rows[q].key()),
    ensures
        sorted_keys(rows.insert(p, x)),
{
    let t = rows.insert(p, x);
    assert forall|i: int, j: int| 0 <= i < j < t.len() implies key_lt(
        #[trigger] t[i].key(),
        #[trigger] t[j].key(),
    ) by {
        if i < p && j > p {
            lemma_key_lt_transitive(t[i].key(), x.key(), t[j].key());
        }
    }
}

/// Adds one case with key (`state_postal`, `sex`, `time_period`) and the given
/// outcomes to a sorted table: the row of that key gains the case, or a new
/// row is put in its place in the order.
pub fn record_case(
    table: &mut Vec<AggregateRow>,
    state_postal: String,
    sex: SexGroup,
    time_period: String,
    hosp: Outcome,
    death: Outcome,
)
    requires
        sorted_keys(old(table)@),
        rows_consistent(old(table)@),
        forall|i: int| 0 <= i < old(table)@.len() ==> (#[trigger] old(table)@[i]).cases < u64::MAX,
    ensures
        sorted_keys(final(table)@),
        rows_consistent(final(table)@),
        forall|k: GroupKey|
            #[trigger] count_of(final(table)@, k) == if k == (GroupKey {
                jurisdiction: state_postal@,
                sex,
                period: time_period@,
            }) {
                plus(count_of(old(table)@, k), unit_tally(hosp, death))
            } else {
                count_of(old(table)@, k)
            },
{
    let ghost k0 = GroupKey { jurisdiction: state_postal@, sex, period: time_period@ };
    let ghost before = table@;
    let p = find_slot(table, &state_postal, sex, &time_period);
    if p < table.len() && matches!(table[p].compare_key(&state_postal, sex, &time_period), core::cmp::Ordering::Equal) {
        let row = table[p].with_case(hosp, death);
        table.set(p, row);
        proof {
            assert(table@ == before.update(p as int, row));
            assert forall|k: GroupKey| #[trigger] count_of(table@, k) == if k == k0 {
                plus(count_of(before, k), unit_tally(hosp, death))
            } else {
                count_of(before, k)
            } by {
                lemma_count_of_update(before, p as int, row, unit_tally(hosp, death), k);
            }
            assert forall|i: int, j: int| 0 <= i < j < table@.len() implies key_lt(
                #[trigger] table@[i].key(),
                #[trigger] table@[j].key(),
            ) by {
                assert(table@[i].key() == before[i].key());
                assert(table@[j].key() == before[j].key());
            }
        }
    } else {
        proof {
            assert forall|q: int| p <= q < before.len() implies key_lt(k0, #[trigger] before[q].key()) by {
                lemma_key_lt_total(before[q].key(), k0);
            }
        }
        let row = AggregateRow::first_case(state_postal, sex, time_period, hosp, death);
        table.insert(p, row);
        proof {
            lemma_sorted_insert(before, p as int, row);
            assert forall|k: GroupKey| #[trigger] count_of(table@, k) == if k == k0 {
                plus(count_of(before, k), unit_tally(hosp, death))
            } else {
                count_of(before, k)
            } by {
                lemma_count_of_insert(before, p as int, row, k);
            }
        }
    }
}

impl AggregateRow {
    /// A copy of the row.
    pub fn copy_row(&self) -> (r: AggregateRow)
        ensures
            r == *self,
    {
        AggregateRow {
            state_postal: self.state_postal.clone(),
            sex: self.sex,
            time_period: self.time_period.clone(),
            cases: self.cases,
            hosp_y: self.hosp_y,
            hosp_n: self.hosp_n,
            hosp_unknown: self.hosp_unknown,
            death_y: self.death_y,
            death_n: self.death_n,
            death_unknown: self.death_unknown,
        }
    }
}

pub proof fn lemma_count_of_push(rows: Seq<AggregateRow>, x: AggregateRow, k: GroupKey)
    ensures
        count_of(rows.push(x), k) == if x.key() == k {
            plus(count_of(rows, k), x.counts())
        } else {
            count_of(rows, k)
        },
{
    assert(rows.push(x).drop_last() =~= rows);
}

/// No key stands in both tables.
pub open spec fn keys_disjoint(a: Seq<AggregateRow>, b: Seq<AggregateRow>) -> bool {
    forall|i: int, j: int| 0 <= i < a.len() && 0 <= j < b.len() ==> #[trigger] a[i].key() != #[trigger] b[j].key()
}

/// Unites two sorted tables with no key in common into one sorted table that
/// holds every row of both.
pub fn merge_tables(a: &Vec<AggregateRow>, b: &Vec<AggregateRow>) -> (r: Vec<AggregateRow>)
    requires
        sorted_keys(a@),
        sorted_keys(b@),
        rows_consistent(a@),
        rows_consistent(b@),
        keys_disjoint(a@, b@),
    ensures
        r@.len() == a@.len() + b@.len(),
        sorted_keys(r@),
        rows_consistent(r@),
        forall|k: GroupKey| #[trigger] count_of(r@, k) == plus(count_of(a@, k), count_of(b@, k)),
{
    let mut out: Vec<AggregateRow> = Vec::new();
    let mut i: usize = 0;
    let mut j: usize = 0;
    assert(a@.take(0) =~= Seq::<AggregateRow>::empty());
    assert(b@.take(0) =~= Seq::<AggregateRow>::empty());
    while i < a.len() || j < b.len()
        invariant
            sorted_keys(a@),
            sorted_keys(b@),
            rows_consistent(a@),
            rows_consistent(b@),
            keys_disjoint(a@, b@),
            i <= a@.len(),
            j <= b@.len(),
            out@.len() == i + j,
            sorted_keys(out@),
            rows_consistent(out@),
            forall|p: int, q: int| 0 <= p < out@.len() && i <= q < a@.len()
                ==> key_lt(#[trigger] out@[p].key(), #[trigger] a@[q].key()),
            forall|p: int, q: int| 0 <= p < out@.len() && j <= q < b@.len()
                ==> key_lt(#[trigger] out@[p].key(), #[trigger] b@[q].key()),
            forall|k: GroupKey| #[trigger] count_of(out@, k)
                == plus(count_of(a@.take(i as int), k), count_of(b@.take(j as int), k)),
        decreases a@.len() + b@.len() - i - j,
    {
        let ghost before = out@;
        let take_a = if i >= a.len() {
            false
        } else if j >= b.len() {
            true
        } else {
            matches!(a[i].compare_key(&b[j].state_postal, b[j].sex, &b[j].time_period), core::cmp::Ordering::Less)
        };
        if take_a {
            let x = a[i].copy_row();
            proof {
                if j < b@.len() {
                    lemma_key_lt_total(a@[i as int].key(), b@[j as int].key());
                }
                assert forall|q: int| j <= q < b@.len() implies key_lt(x.key(), #[trigger] b@[q].key()) by {
                    if q > j {
                        lemma_key_lt_transitive(x.key(), b@[j as int].key(), b@[q].key());
                    }
                }
            }
            out.push(x);
            proof {
                assert(a@.take(i + 1) =~= a@.take(i as int).push(x));
                assert forall|k: GroupKey| #[trigger] count_of(out@, k)
                    == plus(count_of(a@.take(i + 1), k), count_of(b@.take(j as int), k)) by {
                    lemma_count_of_push(before, x, k);
                    lemma_count_of_push(a@.take(i as int), x, k);
                }
            }
            i = i + 1;
        } else {
            let x = b[j].copy_row();
            proof {
                if i < a@.len() {
                    lemma_key_lt_total(a@[i as int].key(), b@[j as int].key());
                }
                assert forall|q: int| i <= q < a@.len() implies key_lt(x.key(), #[trigger] a@[q].key()) by {
                    if q > i {
                        lemma_key_lt_transitive(x.key(), a@[i as int].key(), a@[q].key());
                    }
                }
            }
            out.push(x);
            proof {
                assert(b@.take(j + 1) =~= b@.take(j as int).push(x));
                assert forall|k: GroupKey| #[trigger] count_of(out@, k)
                    == plus(count_of(a@.take(i as int), k), count_of(b@.take(j + 1), k)) by {
                    lemma_count_of_push(before, x, k);
                    lemma_count_of_push(b@.take(j as int), x, k);
                }
            }
            j = j + 1;
        }
    }
    assert(a@.take(a@.len() as int) =~= a@);
    assert(b@.take(b@.len() as int) =~= b@);
    out
}

} // verus!
