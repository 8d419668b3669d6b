use cdc_restricted::aggregate::{aggregate, summarize, Grouping};
use cdc_restricted::record::{
    canonical_jurisdiction, canonical_sex, normalize, outcome, report_period, Outcome, RawRecord,
    SexGroup,
};
use cdc_restricted::table::{merge_tables, AggregateRow};

fn text(v: Option<&str>) -> Option<String> {
    v.map(|s| s.to_string())
}

fn rec(
    state: Option<&str>,
    date: Option<&str>,
    sex: Option<&str>,
    hosp: Option<&str>,
    death: Option<&str>,
) -> RawRecord {
    RawRecord {
        res_state: text(state),
        cdc_case_earliest_dt: text(date),
        sex: text(sex),
        hosp_yn: text(hosp),
        death_yn: text(death),
    }
}

fn copy_records(records: &[RawRecord]) -> Vec<RawRecord> {
    records
        .iter()
        .map(|r| RawRecord {
            res_state: r.res_state.clone(),
            cdc_case_earliest_dt: r.cdc_case_earliest_dt.clone(),
            sex: r.sex.clone(),
            hosp_yn: r.hosp_yn.clone(),
            death_yn: r.death_yn.clone(),
        })
        .collect()
}

fn row_tuple(r: &AggregateRow) -> (String, String, String, [u64; 7]) {
    (
        r.state_postal.clone(),
        r.sex.label(),
        r.time_period.clone(),
        [r.cases, r.hosp_y, r.hosp_n, r.hosp_unknown, r.death_y, r.death_n, r.death_unknown],
    )
}

fn two_colorado_rows() -> Vec<RawRecord> {
    vec![
        rec(Some("CO"), Some("2021-03-15"), Some("Female"), Some("Yes"), Some("No")),
        rec(Some("CO"), Some("2021-03-20"), Some("Female"), Some("No"), Some("No")),
    ]
}

#[test]
fn colorado_two_rows_by_sex_and_all() {
    let table = summarize(&two_colorado_rows());
    let rows: Vec<_> = table.iter().map(row_tuple).collect();
    assert_eq!(
        rows,
        vec![
            ("CO".to_string(), "All".to_string(), "2021-03".to_string(), [2, 1, 1, 0, 0, 2, 0]),
            ("CO".to_string(), "Female".to_string(), "2021-03".to_string(), [2, 1, 1, 0, 0, 2, 0]),
        ]
    );
}

#[test]
fn null_date_row_is_not_counted() {
    let mut records = two_colorado_rows();
    records.push(rec(Some("CO"), None, Some("Female"), Some("Yes"), Some("Yes")));
    let with_null = summarize(&records);
    let without = summarize(&two_colorado_rows());
    let a: Vec<_> = with_null.iter().map(row_tuple).collect();
    let b: Vec<_> = without.iter().map(row_tuple).collect();
    assert_eq!(a, b);
    assert_eq!(a.len(), 2);
}

#[test]
fn unrecognised_sex_counts_as_unknown_and_in_all() {
    let records = vec![rec(Some("CO"), Some("2021-03-15"), Some("NonBinary"), Some("Yes"), Some("No"))];
    let rows: Vec<_> = summarize(&records).iter().map(row_tuple).collect();
    assert_eq!(
        rows,
        vec![
            ("CO".to_string(), "All".to_string(), "2021-03".to_string(), [1, 1, 0, 0, 0, 1, 0]),
            ("CO".to_string(), "Unknown".to_string(), "2021-03".to_string(), [1, 1, 0, 0, 0, 1, 0]),
        ]
    );
}

#[test]
fn missing_jurisdiction_rows_are_dropped() {
    let mut records = two_colorado_rows();
    records.insert(1, rec(Some("Missing"), Some("2021-03-01"), Some("Male"), Some("Yes"), Some("Yes")));
    let a: Vec<_> = summarize(&records).iter().map(row_tuple).collect();
    let b: Vec<_> = summarize(&two_colorado_rows()).iter().map(row_tuple).collect();
    assert_eq!(a, b);
    assert!(normalize(&records[1]).is_none());
}

#[test]
fn placeholder_jurisdictions_fold_to_unknown() {
    for raw in [None, Some(""), Some("Unknown"), Some("NA"), Some("Missing")] {
        assert_eq!(canonical_jurisdiction(&text(raw)), "Unknown");
    }
    assert_eq!(canonical_jurisdiction(&text(Some("NY"))), "NY");
    assert_eq!(canonical_jurisdiction(&text(Some("ny "))), "ny ");
}

#[test]
fn period_is_first_seven_characters() {
    assert_eq!(report_period(&text(Some("2021-03-15"))), Some("2021-03".to_string()));
    assert_eq!(report_period(&text(Some("2021-3"))), Some("2021-3".to_string()));
    assert_eq!(report_period(&text(Some(""))), Some(String::new()));
    assert_eq!(report_period(&None), None);
}

#[test]
fn outcomes_are_exact_yes_or_no() {
    assert_eq!(outcome(&text(Some("Yes"))), Outcome::Yes);
    assert_eq!(outcome(&text(Some("No"))), Outcome::No);
    assert_eq!(outcome(&text(Some("yes"))), Outcome::Unknown);
    assert_eq!(outcome(&text(Some("Missing"))), Outcome::Unknown);
    assert_eq!(outcome(&None), Outcome::Unknown);
}

#[test]
fn sex_values_outside_the_known_three_are_unknown() {
    assert_eq!(canonical_sex(&text(Some("Male"))), SexGroup::Male);
    assert_eq!(canonical_sex(&text(Some("Female"))), SexGroup::Female);
    assert_eq!(canonical_sex(&text(Some("Other"))), SexGroup::Other);
    assert_eq!(canonical_sex(&text(Some("male"))), SexGroup::Unknown);
    assert_eq!(canonical_sex(&None), SexGroup::Unknown);
}

#[test]
fn null_outcome_fields_count_as_unknown() {
    let records = vec![rec(Some("TX"), Some("2020-12-01"), Some("Male"), None, None)];
    let rows: Vec<_> = aggregate(&records, Grouping::BySex).iter().map(row_tuple).collect();
    assert_eq!(rows, vec![("TX".to_string(), "Male".to_string(), "2020-12".to_string(), [1, 0, 0, 1, 0, 0, 1])]);
}

#[test]
fn rollup_equals_sum_of_sexes() {
    let records = vec![
        rec(Some("NY"), Some("2020-04-02"), Some("Male"), Some("Yes"), Some("Yes")),
        rec(Some("NY"), Some("2020-04-09"), Some("Female"), Some("No"), None),
        rec(Some("NY"), Some("2020-04-11"), Some("Other"), Some("Unknown"), Some("No")),
        rec(Some("NY"), Some("2020-04-30"), None, Some("Yes"), Some("No")),
        rec(Some("NY"), Some("2020-04-30"), Some("Male"), Some("No"), Some("No")),
    ];
    let table = summarize(&records);
    let all = table.iter().find(|r| r.sex == SexGroup::All).unwrap();
    let mut sums = [0u64; 7];
    for r in table.iter().filter(|r| r.sex != SexGroup::All) {
        let t = row_tuple(r).3;
        for i in 0..7 {
            sums[i] += t[i];
        }
    }
    assert_eq!(sums, row_tuple(all).3);
    assert_eq!(all.cases, 5);
    for r in table.iter() {
        assert_eq!(r.hosp_y + r.hosp_n + r.hosp_unknown, r.cases);
        assert_eq!(r.death_y + r.death_n + r.death_unknown, r.cases);
    }
}

#[test]
fn output_is_sorted_by_jurisdiction_sex_period() {
    let records = vec![
        rec(Some("WA"), Some("2021-01-05"), Some("Male"), Some("No"), Some("No")),
        rec(Some("AK"), Some("2021-02-05"), Some("Female"), Some("No"), Some("No")),
        rec(Some("AK"), Some("2020-11-05"), Some("Female"), Some("No"), Some("No")),
        rec(None, Some("2020-11-05"), Some("Female"), Some("No"), Some("No")),
        rec(Some("AK"), Some("2021-02-07"), Some("Male"), Some("No"), Some("No")),
    ];
    let keys: Vec<_> = summarize(&records)
        .iter()
        .map(|r| (r.state_postal.clone(), r.sex.label(), r.time_period.clone()))
        .collect();
    let expected: Vec<(String, String, String)> = [
        ("AK", "All", "2020-11"),
        ("AK", "All", "2021-02"),
        ("AK", "Female", "2020-11"),
        ("AK", "Female", "2021-02"),
        ("AK", "Male", "2021-02"),
        ("Unknown", "All", "2020-11"),
        ("Unknown", "Female", "2020-11"),
        ("WA", "All", "2021-01"),
        ("WA", "Male", "2021-01"),
    ]
    .iter()
    .map(|(a, b, c)| (a.to_string(), b.to_string(), c.to_string()))
    .collect();
    assert_eq!(keys, expected);
}

#[test]
fn running_twice_gives_the_same_table() {
    let records = vec![
        rec(Some("CO"), Some("2021-03-15"), Some("Female"), Some("Yes"), Some("No")),
        rec(Some("NM"), Some("2021-01-15"), Some("Male"), None, Some("Yes")),
        rec(Some("CO"), Some("2021-02-15"), Some("Other"), Some("No"), Some("No")),
    ];
    let a: Vec<_> = summarize(&records).iter().map(row_tuple).collect();
    let b: Vec<_> = summarize(&records).iter().map(row_tuple).collect();
    assert_eq!(a, b);
    assert_eq!(a.len(), 6);
}

#[test]
fn empty_input_gives_empty_table() {
    assert!(summarize(&Vec::new()).is_empty());
}

#[test]
fn merge_keeps_every_row_of_both_tables() {
    let records = vec![
        rec(Some("GA"), Some("2021-05-01"), Some("Male"), Some("Yes"), Some("No")),
        rec(Some("AL"), Some("2021-05-01"), Some("Female"), Some("No"), Some("No")),
    ];
    let by_sex = aggregate(&records, Grouping::BySex);
    let all = aggregate(&records, Grouping::AllSexes);
    let merged = merge_tables(&by_sex, &all);
    assert_eq!(merged.len(), 4);
    let labels: Vec<_> = merged.iter().map(|r| (r.state_postal.clone(), r.sex.label())).collect();
    assert_eq!(
        labels,
        vec![
            ("AL".to_string(), "All".to_string()),
            ("AL".to_string(), "Female".to_string()),
            ("GA".to_string(), "All".to_string()),
            ("GA".to_string(), "Male".to_string()),
        ]
    );
}

#[test]
fn batch_order_does_not_change_table() {
    let first = vec![
        rec(Some("CO"), Some("2021-03-15"), Some("Female"), Some("Yes"), Some("No")),
        rec(Some("UT"), Some("2021-04-01"), Some("Male"), Some("No"), Some("Yes")),
    ];
    let second = vec![
        rec(Some("CO"), Some("2021-03-02"), Some("Male"), None, Some("No")),
        rec(Some("Unknown"), Some("2021-03-02"), Some("Female"), Some("Yes"), Some("Yes")),
    ];
    let mut ab = copy_records(&first);
    ab.extend(copy_records(&second));
    let mut ba = copy_records(&second);
    ba.extend(copy_records(&first));
    let a: Vec<_> = summarize(&ab).iter().map(row_tuple).collect();
    let b: Vec<_> = summarize(&ba).iter().map(row_tuple).collect();
    assert_eq!(a, b);
}
