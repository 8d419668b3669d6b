//! Raw case records as read from the source extracts, and the rules that
//! normalise their free-text fields into the categories that are counted.

use vstd::prelude::*;
use crate::text::{equals_text, lemma_text_lt_irreflexive, prefix, take_prefix, text_lt};

verus! {

/// Number of leading characters of a case date that name its month (`YYYY-MM`).
pub const PERIOD_LEN: usize = 7;

/// One row of a source extract: the fields that the summary reads, each absent
/// where the extract held no value.
pub struct RawRecord {
    pub res_state: Option<String>,
    pub cdc_case_earliest_dt: Option<String>,
    pub sex: Option<String>,
    pub hosp_yn: Option<String>,
    pub death_yn: Option<String>,
}

pub ghost struct RawRecordView {
    pub res_state: Option<Seq<char>>,
    pub cdc_case_earliest_dt: Option<Seq<char>>,
    pub sex: Option<Seq<char>>,
    pub hosp_yn: Option<Seq<char>>,
    pub death_yn: Option<Seq<char>>,
}

pub open spec fn opt_view(s: Option<String>) -> Option<Seq<char>> {
    match s {
        Some(t) => Some(t@),
        None => None,
    }
}

impl View for RawRecord {
    type V = RawRecordView;

    open spec fn view(&self) -> RawRecordView {
        RawRecordView {
            res_state: opt_view(self.res_state),
            cdc_case_earliest_dt: opt_view(self.cdc_case_earliest_dt),
            sex: opt_view(self.sex),
            hosp_yn: opt_view(self.hosp_yn),
            death_yn: opt_view(self.death_yn),
        }
    }
}

/// The three-way reading of a Yes/No outcome field.
#[derive(PartialEq, Eq, Structural, Clone, Copy, Debug)]
pub enum Outcome {
    Yes,
    No,
    Unknown,
}

/// The sex categories of the output; `All` labels the rollup over every sex.
/// The variants are declared in the alphabetical order of their labels.
#[derive(PartialEq, Eq, Structural, Clone, Copy, Debug)]
pub enum SexGroup {
    All,
    Female,
    Male,
    Other,
    Unknown,
}

impl SexGroup {
    /// Position of the group in the output order.
    pub open spec fn rank(self) -> nat {
        match self {
            SexGroup::All => 0,
            SexGroup::Female => 1,
            SexGroup::Male => 2,
            SexGroup::Other => 3,
            SexGroup::Unknown => 4,
        }
    }

    pub open spec fn label_spec(self) -> Seq<char> {
        match self {
            SexGroup::All => "All"@,
            SexGroup::Female => "Female"@,
            SexGroup::Male => "Male"@,
            SexGroup::Other => "Other"@,
            SexGroup::Unknown => "Unknown"@,
        }
    }

    /// The rank order of the groups is the alphabetical order of their labels.
    pub proof fn lemma_rank_follows_label(self, other: SexGroup)
        ensures
            self.rank() < other.rank() <==> text_lt(self.label_spec(), other.label_spec()),
    {
        reveal_strlit("All");
        reveal_strlit("Female");
        reveal_strlit("Male");
        reveal_strlit("Other");
        reveal_strlit("Unknown");
        lemma_text_lt_irreflexive(self.label_spec());
    }

    /// The text that stands for the group in the output table.
    pub fn label(&self) -> (r: String)
        ensures
            r@ == self.label_spec(),
    {
        match self {
            SexGroup::All => String::from_str("All"),
            SexGroup::Female => String::from_str("Female"),
            SexGroup::Male => String::from_str("Male"),
            SexGroup::Other => String::from_str("Other"),
            SexGroup::Unknown => String::from_str("Unknown"),
        }
    }

    pub fn rank_of(&self) -> (r: u8)
        ensures
            r as nat == self.rank(),
    {
        match self {
            SexGroup::All => 0,
            SexGroup::Female => 1,
            SexGroup::Male => 2,
            SexGroup::Other => 3,
            SexGroup::Unknown => 4,
        }
    }
}

/// Whether `v` holds exactly the text `lit`.
pub open spec fn is_text(v: Option<Seq<char>>, lit: Seq<char>) -> bool {
    v == Some(lit)
}

/// A row whose jurisdiction is the literal `Missing` is left out of every count.
pub open spec fn is_dropped(r: RawRecordView) -> bool {
    is_text(r.res_state, "Missing"@)
}

/// Absent, empty and placeholder jurisdictions fold to `Unknown`; any other
/// value is kept as it is.
pub open spec fn jurisdiction_of(v: Option<Seq<char>>) -> Seq<char> {
    match v {
        None => "Unknown"@,
        Some(s) => if s.len() == 0 || s == "Missing"@ || s == "Unknown"@ || s == "NA"@ {
            "Unknown"@
        } else {
            s
        },
    }
}

/// The month of a case: the first characters of its date, absent with the date.
pub open spec fn period_of(v: Option<Seq<char>>) -> Option<Seq<char>> {
    match v {
        None => None,
        Some(s) => Some(prefix(s, PERIOD_LEN as nat)),
    }
}

/// Exactly `Yes` or `No`; everything else, absence included, is `Unknown`.
pub open spec fn outcome_of(v: Option<Seq<char>>) -> Outcome {
    if is_text(v, "Yes"@) {
        Outcome::Yes
    } else if is_text(v, "No"@) {
        Outcome::No
    } else {
        Outcome::Unknown
    }
}

/// `Male`, `Female` and `Other` are kept; any other value, absence included,
/// is `Unknown`.
pub open spec fn sex_of(v: Option<Seq<char>>) -> SexGroup {
    if is_text(v, "Male"@) {
        SexGroup::Male
    } else if is_text(v, "Female"@) {
        SexGroup::Female
    } else if is_text(v, "Other"@) {
        SexGroup::Other
    } else {
        SexGroup::Unknown
    }
}

fn field_is(v: &Option<String>, lit: &str) -> (r: bool)
    ensures
        r == is_text(opt_view(*v), lit@),
{
    match v {
        Some(s) => equals_text(s.as_str(), lit),
        None => false,
    }
}

/// Whether the record is left out of every count.
pub fn dropped(r: &RawRecord) -> (b: bool)
    ensures
        b == is_dropped(r@),
{
    field_is(&r.res_state, "Missing")
}

/// The canonical jurisdiction of a raw jurisdiction field.
pub fn canonical_jurisdiction(v: &Option<String>) -> (r: String)
    ensures
        r@ == jurisdiction_of(opt_view(*v)),
{
    match v {
        None => String::from_str("Unknown"),
        Some(s) => {
            let t = s.as_str();
            if t.unicode_len() == 0 || equals_text(t, "Missing") || equals_text(t, "Unknown")
                || equals_text(t, "NA") {
                String::from_str("Unknown")
            } else {
                s.clone()
            }
        },
    }
}

/// The report period (`YYYY-MM`) of a raw date field.
pub fn report_period(v: &Option<String>) -> (r: Option<String>)
    ensures
        opt_view(r) == period_of(opt_view(*v)),
{
    match v {
        None => None,
        Some(s) => Some(take_prefix(s.as_str(), PERIOD_LEN)),
    }
}

/// The outcome category of a raw Yes/No field.
pub fn outcome(v: &Option<String>) -> (r: Outcome)
    ensures
        r == outcome_of(opt_view(*v)),
{
    if field_is(v, "Yes") {
        Outcome::Yes
    } else if field_is(v, "No") {
        Outcome::No
    } else {
        Outcome::Unknown
    }
}

/// The canonical sex of a raw sex field.
pub fn canonical_sex(v: &Option<String>) -> (r: SexGroup)
    ensures
        r == sex_of(opt_view(*v)),
{
    if field_is(v, "Male") {
        SexGroup::Male
    } else if field_is(v, "Female") {
        SexGroup::Female
    } else if field_is(v, "Other") {
        SexGroup::Other
    } else {
        SexGroup::Unknown
    }
}

/// A record with its fields read into the categories that are counted.
pub struct NormalizedRecord {
    pub jurisdiction: String,
    pub sex: SexGroup,
    pub period: Option<String>,
    pub is_case: bool,
    pub hosp: Outcome,
    pub death: Outcome,
}

/// What a record normalises to, or `None` where it is dropped.
pub open spec fn normalized_view(r: RawRecordView) -> Option<(Seq<char>, SexGroup, Option<Seq<char>>, bool, Outcome, Outcome)> {
    if is_dropped(r) {
        None
    } else {
        Some((
            jurisdiction_of(r.res_state),
            sex_of(r.sex),
            period_of(r.cdc_case_earliest_dt),
            period_of(r.cdc_case_earliest_dt) is Some,
            outcome_of(r.hosp_yn),
            outcome_of(r.death_yn),
        ))
    }
}

impl NormalizedRecord {
    pub open spec fn view_tuple(&self) -> (Seq<char>, SexGroup, Option<Seq<char>>, bool, Outcome, Outcome) {
        (self.jurisdiction@, self.sex, opt_view(self.period), self.is_case, self.hosp, self.death)
    }
}

/// Normalises one record: `None` where its jurisdiction is `Missing`, else its
/// canonical jurisdiction, sex, period, case flag and outcomes.
pub fn normalize(r: &RawRecord) -> (n: Option<NormalizedRecord>)
    ensures
        match n {
            None => normalized_view(r@) is None,
            Some(x) => normalized_view(r@) == Some(x.view_tuple()),
        },
{
    if dropped(r) {
        return None;
    }
    let period = report_period(&r.cdc_case_earliest_dt);
    let is_case = period.is_some();
    Some(NormalizedRecord {
        jurisdiction: canonical_jurisdiction(&r.res_state),
        sex: canonical_sex(&r.sex),
        period,
        is_case,
        hosp: outcome(&r.hosp_yn),
        death: outcome(&r.death_yn),
    })
}

} // verus!
