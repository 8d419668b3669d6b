//! Properties of the output table that relate several tables or several runs.

use vstd::prelude::*;
use crate::aggregate::{grouping_of, is_summary, key_of, summary_tally, tally, Grouping};
use crate::record::{is_dropped, RawRecord, SexGroup};
use crate::table::{
    count_of, lemma_count_of_absent, lemma_count_of_sorted, lemma_key_lt_irreflexive,
    lemma_key_lt_total, lemma_key_lt_transitive, key_lt, partitioned, plus, rows_consistent,
    sorted_keys,
    zero_tally, AggregateRow, GroupKey, Tally,
};

verus! {

/// Two tables list the same keys in the same order with the same counters.
pub open spec fn same_table(a: Seq<AggregateRow>, b: Seq<AggregateRow>) -> bool {
    &&& a.len() == b.len()
    &&& forall|i: int| 0 <= i < a.len() ==> (#[trigger] a[i]).key() == b[i].key() && a[i].counts() == b[i].counts()
}

proof fn lemma_all_below_last(rows: Seq<AggregateRow>, k: GroupKey)
    requires
        sorted_keys(rows),
        rows.len() > 0,
        key_lt(rows.last().key(), k),
    ensures
        count_of(rows, k) == zero_tally(),
{
    assert forall|i: int| 0 <= i < rows.len() implies (#[trigger] rows[i]).key() != k by {
        if i < rows.len() - 1 {
            lemma_key_lt_transitive(rows[i].key(), rows.last().key(), k);
        }
        lemma_key_lt_irreflexive(k);
    }
    lemma_count_of_absent(rows, k);
}

proof fn lemma_sorted_drop_last(rows: Seq<AggregateRow>)
    requires
        sorted_keys(rows),
        rows_consistent(rows),
        rows.len() > 0,
    ensures
        sorted_keys(rows.drop_last()),
        rows_consistent(rows.drop_last()),
{
    let d = rows.drop_last();
    assert forall|i: int, j: int| 0 <= i < j < d.len() implies key_lt(#[trigger] d[i].key(), #[trigger] d[j].key()) by {
        assert(d[i] == rows[i] && d[j] == rows[j]);
    }
    assert forall|i: int| 0 <= i < d.len() implies {
        &&& (#[trigger] d[i]).cases > 0
        &&& partitioned(d[i].counts())
    } by {
        assert(d[i] == rows[i]);
    }
}

/// Sorted tables of consistent rows that hold the same counters under every
/// key are the same table.
pub proof fn lemma_tables_agree(a: Seq<AggregateRow>, b: Seq<AggregateRow>)
    requires
        sorted_keys(a),
        sorted_keys(b),
        rows_consistent(a),
        rows_consistent(b),
        forall|k: GroupKey| #[trigger] count_of(a, k) == count_of(b, k),
    ensures
        same_table(a, b),
    decreases a.len() + b.len(),
{
    if a.len() == 0 && b.len() > 0 {
        lemma_count_of_sorted(b, b.len() - 1);
        assert(count_of(a, b.last().key()) == count_of(b, b.last().key()));
    } else if b.len() == 0 && a.len() > 0 {
        lemma_count_of_sorted(a, a.len() - 1);
        assert(count_of(a, a.last().key()) == count_of(b, a.last().key()));
    } else if a.len() > 0 && b.len() > 0 {
        let x = a.last();
        let y = b.last();
        lemma_count_of_sorted(a, a.len() - 1);
        lemma_count_of_sorted(b, b.len() - 1);
        lemma_key_lt_total(x.key(), y.key());
        if key_lt(x.key(), y.key()) {
            lemma_all_below_last(a, y.key());
            assert(count_of(a, y.key()) == count_of(b, y.key()));
        }
        if key_lt(y.key(), x.key()) {
            lemma_all_below_last(b, x.key());
            assert(count_of(a, x.key()) == count_of(b, x.key()));
        }
        assert(x.key() == y.key());
        assert(count_of(a, x.key()) == count_of(b, x.key()));
        let da = a.drop_last();
        let db = b.drop_last();
        lemma_sorted_drop_last(a);
        lemma_sorted_drop_last(b);
        assert forall|k: GroupKey| #[trigger] count_of(da, k) == count_of(db, k) by {
            assert(count_of(a, k) == count_of(b, k));
        }
        lemma_tables_agree(da, db);
        assert forall|i: int| 0 <= i < a.len() implies (#[trigger] a[i]).key() == b[i].key() && a[i].counts() == b[i].counts() by {
            if i < a.len() - 1 {
                assert(da[i] == a[i] && db[i] == b[i]);
            }
        }
    }
}

/// The pipeline's output is a function of its input: two output tables of the
/// same records are the same table, so a second run gives the same rows in the
/// same order.
pub proof fn lemma_summary_deterministic(recs: Seq<RawRecord>, t1: Seq<AggregateRow>, t2: Seq<AggregateRow>)
    requires
        is_summary(recs, t1),
        is_summary(recs, t2),
    ensures
        same_table(t1, t2),
{
    assert forall|k: GroupKey| #[trigger] count_of(t1, k) == count_of(t2, k) by {
        assert(count_of(t1, k) == summary_tally(recs, k));
        assert(count_of(t2, k) == summary_tally(recs, k));
    }
    lemma_tables_agree(t1, t2);
}

pub proof fn lemma_tally_concat(g: Grouping, a: Seq<RawRecord>, b: Seq<RawRecord>, k: GroupKey)
    ensures
        tally(g, a + b, k) == plus(tally(g, a, k), tally(g, b, k)),
    decreases b.len(),
{
    if b.len() == 0 {
        assert(a + b =~= a);
    } else {
        assert((a + b).drop_last() =~= a + b.drop_last());
        lemma_tally_concat(g, a, b.drop_last(), k);
    }
}

/// A record whose jurisdiction is `Missing`, put anywhere among the records,
/// changes no row of the output table, the all-sexes rows included.
pub proof fn lemma_missing_jurisdiction_ignored(
    recs: Seq<RawRecord>,
    p: int,
    x: RawRecord,
    t1: Seq<AggregateRow>,
    t2: Seq<AggregateRow>,
)
    requires
        is_dropped(x@),
        0 <= p <= recs.len(),
        is_summary(recs, t1),
        is_summary(recs.insert(p, x), t2),
    ensures
        same_table(t1, t2),
{
    let left = recs.take(p);
    let right = recs.skip(p);
    assert(recs =~= left + right);
    assert(recs.insert(p, x) =~= left + seq![x] + right);
    assert forall|k: GroupKey| #[trigger] count_of(t1, k) == count_of(t2, k) by {
        let g = grouping_of(k.sex);
        lemma_tally_concat(g, left, right, k);
        lemma_tally_concat(g, left + seq![x], right, k);
        lemma_tally_concat(g, left, seq![x], k);
        assert(seq![x].drop_last() =~= Seq::<RawRecord>::empty());
        assert(seq![x].last() == x);
        assert(key_of(g, x@) is None);
        assert(tally(g, seq![x].drop_last(), k) == zero_tally());
        assert(tally(g, seq![x], k) == zero_tally());
        assert(count_of(t1, k) == summary_tally(recs, k));
        assert(count_of(t2, k) == summary_tally(recs.insert(p, x), k));
    }
    lemma_tables_agree(t1, t2);
}

/// The output does not depend on the order in which two batches of records
/// arrive: either order gives the same table.
pub proof fn lemma_batch_order_irrelevant(
    a: Seq<RawRecord>,
    b: Seq<RawRecord>,
    t1: Seq<AggregateRow>,
    t2: Seq<AggregateRow>,
)
    requires
        is_summary(a + b, t1),
        is_summary(b + a, t2),
    ensures
        same_table(t1, t2),
{
    assert forall|k: GroupKey| #[trigger] count_of(t1, k) == count_of(t2, k) by {
        let g = grouping_of(k.sex);
        lemma_tally_concat(g, a, b, k);
        lemma_tally_concat(g, b, a, k);
        assert(count_of(t1, k) == summary_tally(a + b, k));
        assert(count_of(t2, k) == summary_tally(b + a, k));
    }
    lemma_tables_agree(t1, t2);
}

/// The four by-sex groups of a jurisdiction and period add up to its
/// all-sexes group.
pub open spec fn sum_of_sexes(table: Seq<AggregateRow>, jurisdiction: Seq<char>, period: Seq<char>) -> Tally {
    plus(
        plus(
            count_of(table, GroupKey { jurisdiction, sex: SexGroup::Male, period }),
            count_of(table, GroupKey { jurisdiction, sex: SexGroup::Female, period }),
        ),
        plus(
            count_of(table, GroupKey { jurisdiction, sex: SexGroup::Other, period }),
            count_of(table, GroupKey { jurisdiction, sex: SexGroup::Unknown, period }),
        ),
    )
}

proof fn lemma_rollup_tally(recs: Seq<RawRecord>, jurisdiction: Seq<char>, period: Seq<char>)
    ensures
        plus(
            plus(
                tally(Grouping::BySex, recs, GroupKey { jurisdiction, sex: SexGroup::Male, period }),
                tally(Grouping::BySex, recs, GroupKey { jurisdiction, sex: SexGroup::Female, period }),
            ),
            plus(
                tally(Grouping::BySex, recs, GroupKey { jurisdiction, sex: SexGroup::Other, period }),
                tally(Grouping::BySex, recs, GroupKey { jurisdiction, sex: SexGroup::Unknown, period }),
            ),
        ) == tally(Grouping::AllSexes, recs, GroupKey { jurisdiction, sex: SexGroup::All, period }),
    decreases recs.len(),
{
    if recs.len() > 0 {
        lemma_rollup_tally(recs.drop_last(), jurisdiction, period);
    }
}

/// In the output table every counter of an all-sexes row equals the sum of
/// that counter over the four by-sex rows of the same jurisdiction and period.
pub proof fn lemma_rollup_equals_sum_of_sexes(
    recs: Seq<RawRecord>,
    table: Seq<AggregateRow>,
    jurisdiction: Seq<char>,
    period: Seq<char>,
)
    requires
        is_summary(recs, table),
    ensures
        sum_of_sexes(table, jurisdiction, period)
            == count_of(table, GroupKey { jurisdiction, sex: SexGroup::All, period }),
{
    lemma_rollup_tally(recs, jurisdiction, period);
    assert(count_of(table, GroupKey { jurisdiction, sex: SexGroup::Male, period })
        == summary_tally(recs, GroupKey { jurisdiction, sex: SexGroup::Male, period }));
    assert(count_of(table, GroupKey { jurisdiction, sex: SexGroup::Female, period })
        == summary_tally(recs, GroupKey { jurisdiction, sex: SexGroup::Female, period }));
    assert(count_of(table, GroupKey { jurisdiction, sex: SexGroup::Other, period })
        == summary_tally(recs, GroupKey { jurisdiction, sex: SexGroup::Other, period }));
    assert(count_of(table, GroupKey { jurisdiction, sex: SexGroup::Unknown, period })
        == summary_tally(recs, GroupKey { jurisdiction, sex: SexGroup::Unknown, period }));
    assert(count_of(table, GroupKey { jurisdiction, sex: SexGroup::All, period })
        == summary_tally(recs, GroupKey { jurisdiction, sex: SexGroup::All, period }));
}

} // verus!
