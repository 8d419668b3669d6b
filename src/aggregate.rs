//! Grouping of normalised records and the sums of their outcome indicators.

use vstd::prelude::*;
use crate::record::{
    is_dropped, jurisdiction_of, normalize, outcome_of, period_of, sex_of, RawRecord,
    RawRecordView, SexGroup,
};
use crate::table::{
    count_of, lemma_count_of_sorted, merge_tables, partitioned, plus, record_case, rows_consistent,
    sorted_keys, unit_tally, zero_tally, AggregateRow, GroupKey, Tally,
};

verus! {

/// How the sex of a record enters its group: as read, or collapsed to `All`.
#[derive(PartialEq, Eq, Structural, Clone, Copy, Debug)]
pub enum Grouping {
    BySex,
    AllSexes,
}

/// The sex group under which a record is counted.
pub open spec fn group_sex(g: Grouping, r: RawRecordView) -> SexGroup {
    match g {
        Grouping::BySex => sex_of(r.sex),
        Grouping::AllSexes => SexGroup::All,
    }
}

/// The group of a record, or `None` where it is dropped or has no date.
pub open spec fn key_of(g: Grouping, r: RawRecordView) -> Option<GroupKey> {
    if is_dropped(r) {
        None
    } else {
        match period_of(r.cdc_case_earliest_dt) {
            None => None,
            Some(p) => Some(
                GroupKey { jurisdiction: jurisdiction_of(r.res_state), sex: group_sex(g, r), period: p },
            ),
        }
    }
}

/// What one record adds to its group.
pub open spec fn case_tally(r: RawRecordView) -> Tally {
    unit_tally(outcome_of(r.hosp_yn), outcome_of(r.death_yn))
}

/// The counters of group `k` over `recs`: the sums of the indicators of the
/// records that fall in it.
pub open spec fn tally(g: Grouping, recs: Seq<RawRecord>, k: GroupKey) -> Tally
    decreases recs.len(),
{
    if recs.len() == 0 {
        zero_tally()
    } else {
        let rest = tally(g, recs.drop_last(), k);
        if key_of(g, recs.last()@) == Some(k) {
            plus(rest, case_tally(recs.last()@))
        } else {
            rest
        }
    }
}

/// No group counts more cases than there are records, and each outcome
/// splits the cases of a group.
pub proof fn lemma_tally_bounded(g: Grouping, recs: Seq<RawRecord>, k: GroupKey)
    ensures
        tally(g, recs, k).cases <= recs.len(),
        partitioned(tally(g, recs, k)),
    decreases recs.len(),
{
    if recs.len() > 0 {
        lemma_tally_bounded(g, recs.drop_last(), k);
    }
}

proof fn lemma_tally_step(g: Grouping, recs: Seq<RawRecord>, i: int, k: GroupKey)
    requires
        0 <= i < recs.len(),
    ensures
        tally(g, recs.take(i + 1), k) == if key_of(g, recs[i]@) == Some(k) {
            plus(tally(g, recs.take(i), k), case_tally(recs[i]@))
        } else {
            tally(g, recs.take(i), k)
        },
{
    assert(recs.take(i + 1).drop_last() =~= recs.take(i));
}

/// The table of one grouping: one row per group that at least one record
/// falls in, with the group's counters, in ascending order of keys.
pub fn aggregate(records: &Vec<RawRecord>, grouping: Grouping) -> (table: Vec<AggregateRow>)
    ensures
        sorted_keys(table@),
        rows_consistent(table@),
        forall|k: GroupKey| #[trigger] count_of(table@, k) == tally(grouping, records@, k),
{
    let mut table: Vec<AggregateRow> = Vec::new();
    let n = records.len();
    let mut i: usize = 0;
    assert(records@.take(0) =~= Seq::<RawRecord>::empty());
    while i < n
        invariant
            n == records@.len(),
            i <= n,
            sorted_keys(table@),
            rows_consistent(table@),
            forall|k: GroupKey| #[trigger] count_of(table@, k) == tally(grouping, records@.take(i as int), k),
            forall|j: int| 0 <= j < table@.len() ==> (#[trigger] table@[j]).cases <= i,
        decreases n - i,
    {
        let ghost before = table@;
        let r = &records[i];
        match normalize(r) {
            Some(rec) => {
                match rec.period {
                    Some(period) => {
                        let sex = match grouping {
                            Grouping::BySex => rec.sex,
                            Grouping::AllSexes => SexGroup::All,
                        };
                        proof {
                            assert forall|j: int| 0 <= j < table@.len() implies (#[trigger] table@[j]).cases < u64::MAX by {
                                assert(table@[j].cases <= i);
                            }
                        }
                        record_case(&mut table, rec.jurisdiction, sex, period, rec.hosp, rec.death);
                    },
                    None => {},
                }
            },
            None => {},
        }
        proof {
            assert forall|k: GroupKey| #[trigger] count_of(table@, k) == tally(grouping, records@.take(i + 1), k) by {
                lemma_tally_step(grouping, records@, i as int, k);
            }
            assert forall|j: int| 0 <= j < table@.len() implies (#[trigger] table@[j]).cases <= i + 1 by {
                lemma_count_of_sorted(table@, j);
                lemma_tally_bounded(grouping, records@.take(i + 1), table@[j].key());
            }
        }
        i = i + 1;
    }
    assert(records@.take(n as int) =~= records@);
    table
}

/// The grouping whose table holds rows of sex group `sex`.
pub open spec fn grouping_of(sex: SexGroup) -> Grouping {
    if sex == SexGroup::All {
        Grouping::AllSexes
    } else {
        Grouping::BySex
    }
}

/// The counters of key `k` in the combined table: from the all-sexes grouping
/// for the `All` rows, from the by-sex grouping for the others.
pub open spec fn summary_tally(recs: Seq<RawRecord>, k: GroupKey) -> Tally {
    tally(grouping_of(k.sex), recs, k)
}

/// A grouping counts nothing under the sex groups that it does not produce.
pub proof fn lemma_tally_other_grouping(g: Grouping, recs: Seq<RawRecord>, k: GroupKey)
    requires
        g != grouping_of(k.sex),
    ensures
        tally(g, recs, k) == zero_tally(),
    decreases recs.len(),
{
    if recs.len() > 0 {
        lemma_tally_other_grouping(g, recs.drop_last(), k);
    }
}

/// Every row of a grouping's table carries a sex group that the grouping produces.
proof fn lemma_rows_of_grouping(g: Grouping, recs: Seq<RawRecord>, rows: Seq<AggregateRow>, i: int)
    requires
        sorted_keys(rows),
        rows_consistent(rows),
        forall|k: GroupKey| #[trigger] count_of(rows, k) == tally(g, recs, k),
        0 <= i < rows.len(),
    ensures
        grouping_of(rows[i].sex) == g,
{
    lemma_count_of_sorted(rows, i);
    assert(count_of(rows, rows[i].key()) == tally(g, recs, rows[i].key()));
    if grouping_of(rows[i].sex) != g {
        lemma_tally_other_grouping(g, recs, rows[i].key());
    }
}

/// `table` is the output table of `recs`: sorted, with consistent rows, and
/// holding under each key exactly the counters of that key.
pub open spec fn is_summary(recs: Seq<RawRecord>, table: Seq<AggregateRow>) -> bool {
    &&& sorted_keys(table)
    &&& rows_consistent(table)
    &&& forall|k: GroupKey| #[trigger] count_of(table, k) == summary_tally(recs, k)
}

/// The output table: the by-sex rows and the all-sexes rows together, one
/// per key that at least one record falls in, in ascending order of
/// jurisdiction, sex group and period.
pub fn summarize(records: &Vec<RawRecord>) -> (table: Vec<AggregateRow>)
    ensures
        is_summary(records@, table@),
{
    let by_sex = aggregate(records, Grouping::BySex);
    let all_sexes = aggregate(records, Grouping::AllSexes);
    proof {
        assert forall|i: int, j: int| 0 <= i < by_sex@.len() && 0 <= j < all_sexes@.len()
            implies #[trigger] by_sex@[i].key() != #[trigger] all_sexes@[j].key() by {
            lemma_rows_of_grouping(Grouping::BySex, records@, by_sex@, i);
            lemma_rows_of_grouping(Grouping::AllSexes, records@, all_sexes@, j);
        }
    }
    let table = merge_tables(&by_sex, &all_sexes);
    proof {
        assert forall|k: GroupKey| #[trigger] count_of(table@, k) == summary_tally(records@, k) by {
            if k.sex == SexGroup::All {
                lemma_tally_other_grouping(Grouping::BySex, records@, k);
            } else {
                lemma_tally_other_grouping(Grouping::AllSexes, records@, k);
            }
        }
    }
    table
}

} // verus!
