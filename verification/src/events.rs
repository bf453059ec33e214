use vstd::prelude::*;

verus! {

use vstd::string::StrSliceExecFns;
use crate::ingest::{pairs_view, spec_attr_last, attr_value, DataPoint};
use crate::manifest::{ColumnDefinition, TableConfig};
use crate::time::{normalize_date, spec_normalize_date};

/// How a piece of an XML element is matched against manifest columns.
#[derive(Clone, Copy, Debug)]
pub enum MatchRule {
    /// A daily-summary attribute: the column declares it in `hk_attribute`.
    SummaryAttribute,
    /// A workout attribute: extraction source `attribute` and the matching
    /// `hk_attribute`.
    WorkoutAttribute,
    /// A `WorkoutStatistics` sum: extraction source `statistics_sum` and the
    /// matching `hk_identifier`.
    StatisticsSum,
    /// A workout `MetadataEntry`: extraction source `metadata_value` and the
    /// matching `hk_identifier`.
    MetadataValue,
    /// A route file reference: extraction source `route_ref`, any key.
    RouteRef,
}

/// Whether the column declares the given extraction source.
pub open spec fn spec_source_is(col: ColumnDefinition, s: Seq<char>) -> bool {
    col.extraction_source matches Some(x) && x@ == s
}

/// Whether a column captures the piece named `key` under `rule`.
pub open spec fn spec_col_matches(col: ColumnDefinition, rule: MatchRule, key: Seq<char>) -> bool {
    match rule {
        MatchRule::SummaryAttribute => col.hk_attribute matches Some(a) && a@ == key,
        MatchRule::WorkoutAttribute => spec_source_is(col, "attribute"@) && (col.hk_attribute
            matches Some(a) && a@ == key),
        MatchRule::StatisticsSum => spec_source_is(col, "statistics_sum"@) && (col.hk_identifier
            matches Some(h) && h@ == key),
        MatchRule::MetadataValue => spec_source_is(col, "metadata_value"@) && (col.hk_identifier
            matches Some(h) && h@ == key),
        MatchRule::RouteRef => spec_source_is(col, "route_ref"@),
    }
}

/// Decides `spec_col_matches` on a concrete column.
fn col_matches(col: &ColumnDefinition, rule: MatchRule, key: &str) -> (r: bool)
    ensures
        r == spec_col_matches(*col, rule, key@),
{
    let key_owned = key.to_owned();
    match rule {
        MatchRule::SummaryAttribute => match &col.hk_attribute {
            Some(a) => *a == key_owned,
            None => false,
        },
        MatchRule::WorkoutAttribute => {
            let src = match &col.extraction_source {
                Some(x) => *x == "attribute".to_owned(),
                None => false,
            };
            src && match &col.hk_attribute {
                Some(a) => *a == key_owned,
                None => false,
            }
        },
        MatchRule::StatisticsSum => {
            let src = match &col.extraction_source {
                Some(x) => *x == "statistics_sum".to_owned(),
                None => false,
            };
            src && match &col.hk_identifier {
                Some(h) => *h == key_owned,
                None => false,
            }
        },
        MatchRule::MetadataValue => {
            let src = match &col.extraction_source {
                Some(x) => *x == "metadata_value".to_owned(),
                None => false,
            };
            src && match &col.hk_identifier {
                Some(h) => *h == key_owned,
                None => false,
            }
        },
        MatchRule::RouteRef => match &col.extraction_source {
            Some(x) => *x == "route_ref".to_owned(),
            None => false,
        },
    }
}

/// The first index holding `key`, if any.
pub open spec fn spec_key_index(cols: Seq<(Seq<char>, Seq<char>)>, key: Seq<char>) -> Option<int>
    decreases cols.len(),
{
    if cols.len() == 0 {
        None
    } else if cols.first().0 == key {
        Some(0)
    } else {
        match spec_key_index(cols.drop_first(), key) {
            Some(i) => Some(i + 1),
            None => None,
        }
    }
}

/// A column list after setting `key` to `value`: the first entry under that
/// key is replaced, or the pair is appended when the key is new.
pub open spec fn spec_upsert(
    cols: Seq<(Seq<char>, Seq<char>)>,
    key: Seq<char>,
    value: Seq<char>,
) -> Seq<(Seq<char>, Seq<char>)> {
    match spec_key_index(cols, key) {
        Some(i) => cols.update(i, (key, value)),
        None => cols.push((key, value)),
    }
}

/// A first match at `i` is what the key lookup finds.
proof fn lemma_key_index_found(cols: Seq<(Seq<char>, Seq<char>)>, key: Seq<char>, i: int)
    requires
        0 <= i < cols.len(),
        forall|j: int| 0 <= j < i ==> cols[j].0 != key,
        cols[i].0 == key,
    ensures
        spec_key_index(cols, key) == Some(i),
    decreases i,
{
    if i > 0 {
        assert forall|j: int| 0 <= j < i - 1 implies cols.drop_first()[j].0 != key by {
            assert(cols.drop_first()[j] == cols[j + 1]);
        }
        assert(cols.drop_first()[i - 1] == cols[i]);
        lemma_key_index_found(cols.drop_first(), key, i - 1);
    }
}

/// With no match anywhere, the key lookup finds nothing.
proof fn lemma_key_index_none(cols: Seq<(Seq<char>, Seq<char>)>, key: Seq<char>)
    requires
        forall|j: int| 0 <= j < cols.len() ==> cols[j].0 != key,
    ensures
        spec_key_index(cols, key) is None,
    decreases cols.len(),
{
    if cols.len() > 0 {
        assert forall|j: int|
            0 <= j < cols.drop_first().len() implies cols.drop_first()[j].0 != key by {
            assert(cols.drop_first()[j] == cols[j + 1]);
        }
        lemma_key_index_none(cols.drop_first(), key);
    }
}

/// Sets `key` to `value` in a column list, replacing an earlier value.
pub fn upsert(cols: &mut Vec<(String, String)>, key: &str, value: &str)
    ensures
        pairs_view(final(cols)@) == spec_upsert(pairs_view(old(cols)@), key@, value@),
{
    let needle = key.to_owned();
    let n = cols.len();
    for i in 0..n
        invariant
            needle@ == key@,
            n == cols@.len(),
            cols@ == old(cols)@,
            forall|j: int| 0 <= j < i ==> pairs_view(cols@)[j].0 != key@,
    {
        if cols[i].0 == needle {
            proof {
                lemma_key_index_found(pairs_view(cols@), key@, i as int);
            }
            cols.set(i, (needle, value.to_owned()));
            proof {
                assert(pairs_view(cols@) =~= spec_upsert(pairs_view(old(cols)@), key@, value@));
            }
            return;
        }
    }
    proof {
        lemma_key_index_none(pairs_view(cols@), key@);
    }
    cols.push((needle, value.to_owned()));
    proof {
        assert(pairs_view(cols@) =~= spec_upsert(pairs_view(old(cols)@), key@, value@));
    }
}

/// A column list after one piece of input was offered to every manifest
/// column in order: each matching column takes the value under its field
/// name.
pub open spec fn spec_apply_rule(
    acc: Seq<(Seq<char>, Seq<char>)>,
    cols: Seq<ColumnDefinition>,
    rule: MatchRule,
    key: Seq<char>,
    value: Seq<char>,
) -> Seq<(Seq<char>, Seq<char>)>
    decreases cols.len(),
{
    if cols.len() == 0 {
        acc
    } else {
        spec_apply_rule(
            if spec_col_matches(cols.first(), rule, key) {
                spec_upsert(acc, cols.first().field_name@, value)
            } else {
                acc
            },
            cols.drop_first(),
            rule,
            key,
            value,
        )
    }
}

/// Offers one piece of input to every manifest column in order.
pub fn apply_rule(
    acc: &mut Vec<(String, String)>,
    cols: &Vec<ColumnDefinition>,
    rule: MatchRule,
    key: &str,
    value: &str,
)
    ensures
        pairs_view(final(acc)@) == spec_apply_rule(
            pairs_view(old(acc)@),
            cols@,
            rule,
            key@,
            value@,
        ),
{
    let n = cols.len();
    proof {
        assert(cols@.skip(0) =~= cols@);
    }
    for i in 0..n
        invariant
            n == cols@.len(),
            spec_apply_rule(pairs_view(old(acc)@), cols@, rule, key@, value@)
                == spec_apply_rule(pairs_view(acc@), cols@.skip(i as int), rule, key@, value@),
    {
        proof {
            assert(cols@.skip(i as int).drop_first() =~= cols@.skip(i as int + 1));
        }
        if col_matches(&cols[i], rule, key) {
            upsert(acc, cols[i].field_name.as_str(), value);
        }
    }
}

/// The columns of a daily-summary row: every attribute offered, in order, to
/// the columns of the summary table.
pub open spec fn spec_summary_columns(
    acc: Seq<(Seq<char>, Seq<char>)>,
    attrs: Seq<(String, String)>,
    cols: Seq<ColumnDefinition>,
) -> Seq<(Seq<char>, Seq<char>)>
    decreases attrs.len(),
{
    if attrs.len() == 0 {
        acc
    } else {
        spec_summary_columns(
            spec_apply_rule(
                acc,
                cols,
                MatchRule::SummaryAttribute,
                attrs.first().0@,
                attrs.first().1@,
            ),
            attrs.drop_first(),
            cols,
        )
    }
}

/// Turns one `ActivitySummary` element into a staged row for the
/// `activity_summaries` table.
pub fn summary_data_point(attrs: &Vec<(String, String)>, cfg: &TableConfig) -> (r: DataPoint)
    ensures
        r.table_name@ == "activity_summaries"@,
        pairs_view(r.columns@) == spec_summary_columns(Seq::empty(), attrs@, cfg.columns@),
{
    let mut columns: Vec<(String, String)> = Vec::new();
    let n = attrs.len();
    proof {
        assert(attrs@.skip(0) =~= attrs@);
        assert(pairs_view(columns@) =~= Seq::<(Seq<char>, Seq<char>)>::empty());
    }
    for i in 0..n
        invariant
            n == attrs@.len(),
            spec_summary_columns(Seq::empty(), attrs@, cfg.columns@) == spec_summary_columns(
                pairs_view(columns@),
                attrs@.skip(i as int),
                cfg.columns@,
            ),
    {
        proof {
            assert(attrs@.skip(i as int).drop_first() =~= attrs@.skip(i as int + 1));
        }
        apply_rule(
            &mut columns,
            &cfg.columns,
            MatchRule::SummaryAttribute,
            attrs[i].0.as_str(),
            attrs[i].1.as_str(),
        );
    }
    DataPoint { table_name: "activity_summaries".to_owned(), columns }
}

/// Everything after the last slash; the whole string when there is none, and
/// empty for a path ending in a slash.
pub open spec fn spec_basename(s: Seq<char>) -> Seq<char>
    decreases s.len(),
{
    if s.len() == 0 {
        Seq::empty()
    } else if s.last() == '/' {
        Seq::empty()
    } else {
        spec_basename(s.drop_last()).push(s.last())
    }
}

/// A slash at `j` with none after it splits off the basename.
proof fn lemma_basename_after_slash(s: Seq<char>, j: int)
    requires
        0 <= j < s.len(),
        s[j] == '/',
        forall|k: int| j < k < s.len() ==> s[k] != '/',
    ensures
        spec_basename(s) == s.subrange(j + 1, s.len() as int),
    decreases s.len(),
{
    if j == s.len() - 1 {
        assert(s.subrange(j + 1, s.len() as int) =~= Seq::<char>::empty());
    } else {
        lemma_basename_after_slash(s.drop_last(), j);
        assert(s.drop_last().subrange(j + 1, s.len() - 1) =~= s.subrange(j + 1, s.len() - 1));
        assert(s.subrange(j + 1, s.len() - 1).push(s.last()) =~= s.subrange(
            j + 1,
            s.len() as int,
        ));
    }
}

/// With no slash at all, the basename is the string itself.
proof fn lemma_basename_no_slash(s: Seq<char>)
    requires
        forall|k: int| 0 <= k < s.len() ==> s[k] != '/',
    ensures
        spec_basename(s) == s,
    decreases s.len(),
{
    if s.len() > 0 {
        lemma_basename_no_slash(s.drop_last());
        assert(s.drop_last().push(s.last()) =~= s);
    }
}

/// Computes the basename of a path.
pub fn basename(s: &str) -> (r: String)
    ensures
        r@ == spec_basename(s@),
{
    let n = s.unicode_len();
    let mut cut: usize = 0;
    let mut has_slash = false;
    for i in 0..n
        invariant
            n == s@.len(),
            has_slash ==> cut >= 1 && cut <= i && s@[cut - 1] == '/',
            !has_slash ==> cut == 0 && forall|k: int| 0 <= k < i ==> s@[k] != '/',
            forall|k: int| cut <= k < i ==> s@[k] != '/',
    {
        if s.get_char(i) == '/' {
            cut = i + 1;
            has_slash = true;
        }
    }
    let tail = s.substring_char(cut, n);
    proof {
        if has_slash {
            lemma_basename_after_slash(s@, cut - 1);
        } else {
            lemma_basename_no_slash(s@);
            assert(s@.subrange(0, n as int) =~= s@);
        }
    }
    tail.to_owned()
}

/// Assembles the staged row of one workout element. Attributes, statistics,
/// metadata entries and route references arrive one by one; the finished
/// row lands in the `workouts` table.
pub struct WorkoutBuilder {
    pub columns: Vec<(String, String)>,
}

impl WorkoutBuilder {
    /// Starts with no columns set.
    pub fn new() -> (r: WorkoutBuilder)
        ensures
            pairs_view(r.columns@) == Seq::<(Seq<char>, Seq<char>)>::empty(),
    {
        let r = WorkoutBuilder { columns: Vec::new() };
        proof {
            assert(pairs_view(r.columns@) =~= Seq::<(Seq<char>, Seq<char>)>::empty());
        }
        r
    }

    /// Takes the element attributes: each one is offered to the workout
    /// columns, and the three date columns are set to the normalized
    /// `startDate`, `endDate` and `creationDate` attributes.
    pub fn apply_attributes(&mut self, attrs: &Vec<(String, String)>, cfg: &TableConfig)
        ensures
            pairs_view(final(self).columns@) == spec_workout_after_attributes(
                pairs_view(old(self).columns@),
                attrs@,
                cfg.columns@,
            ),
    {
        let n = attrs.len();
        proof {
            assert(attrs@.skip(0) =~= attrs@);
        }
        for i in 0..n
            invariant
                n == attrs@.len(),
                spec_workout_attr_fold(
                    pairs_view(old(self).columns@),
                    attrs@,
                    cfg.columns@,
                ) == spec_workout_attr_fold(
                    pairs_view(self.columns@),
                    attrs@.skip(i as int),
                    cfg.columns@,
                ),
        {
            proof {
                assert(attrs@.skip(i as int).drop_first() =~= attrs@.skip(i as int + 1));
            }
            apply_rule(
                &mut self.columns,
                &cfg.columns,
                MatchRule::WorkoutAttribute,
                attrs[i].0.as_str(),
                attrs[i].1.as_str(),
            );
        }
        let start = normalize_date(attr_value(attrs, "startDate").as_str());
        let end = normalize_date(attr_value(attrs, "endDate").as_str());
        let creation = normalize_date(attr_value(attrs, "creationDate").as_str());
        upsert(&mut self.columns, "start_date", start.as_str());
        upsert(&mut self.columns, "end_date", end.as_str());
        upsert(&mut self.columns, "creation_date", creation.as_str());
    }

    /// Takes one `WorkoutStatistics` child: columns extracting
    /// `statistics_sum` under the statistic's type receive the sum.
    pub fn apply_statistics(&mut self, stat_type: &str, stat_sum: &str, cfg: &TableConfig)
        ensures
            pairs_view(final(self).columns@) == spec_apply_rule(
                pairs_view(old(self).columns@),
                cfg.columns@,
                MatchRule::StatisticsSum,
                stat_type@,
                stat_sum@,
            ),
    {
        apply_rule(&mut self.columns, &cfg.columns, MatchRule::StatisticsSum, stat_type, stat_sum);
    }

    /// Takes one `MetadataEntry` child: columns extracting `metadata_value`
    /// under the entry's key receive the value.
    pub fn apply_metadata(&mut self, key: &str, value: &str, cfg: &TableConfig)
        ensures
            pairs_view(final(self).columns@) == spec_apply_rule(
                pairs_view(old(self).columns@),
                cfg.columns@,
                MatchRule::MetadataValue,
                key@,
                value@,
            ),
    {
        apply_rule(&mut self.columns, &cfg.columns, MatchRule::MetadataValue, key, value);
    }

    /// Takes one `FileReference` child: columns extracting `route_ref`
    /// receive the basename of the referenced path.
    pub fn apply_file_reference(&mut self, path: &str, cfg: &TableConfig)
        ensures
            pairs_view(final(self).columns@) == spec_apply_rule(
                pairs_view(old(self).columns@),
                cfg.columns@,
                MatchRule::RouteRef,
                Seq::empty(),
                spec_basename(path@),
            ),
    {
        let name = basename(path);
        let empty_key = String::new();
        apply_rule(
            &mut self.columns,
            &cfg.columns,
            MatchRule::RouteRef,
            empty_key.as_str(),
            name.as_str(),
        );
    }

    /// Closes the element: the staged row for the `workouts` table.
    pub fn finish(self) -> (r: DataPoint)
        ensures
            r.table_name@ == "workouts"@,
            r.columns == self.columns,
    {
        DataPoint { table_name: "workouts".to_owned(), columns: self.columns }
    }
}

/// The attribute fold alone: every attribute offered to the workout columns.
pub open spec fn spec_workout_attr_fold(
    acc: Seq<(Seq<char>, Seq<char>)>,
    attrs: Seq<(String, String)>,
    cols: Seq<ColumnDefinition>,
) -> Seq<(Seq<char>, Seq<char>)>
    decreases attrs.len(),
{
    if attrs.len() == 0 {
        acc
    } else {
        spec_workout_attr_fold(
            spec_apply_rule(
                acc,
                cols,
                MatchRule::WorkoutAttribute,
                attrs.first().0@,
                attrs.first().1@,
            ),
            attrs.drop_first(),
            cols,
        )
    }
}

/// A workout's columns after its attributes: the attribute fold, then the
/// three normalized date columns.
pub open spec fn spec_workout_after_attributes(
    acc: Seq<(Seq<char>, Seq<char>)>,
    attrs: Seq<(String, String)>,
    cols: Seq<ColumnDefinition>,
) -> Seq<(Seq<char>, Seq<char>)> {
    spec_upsert(
        spec_upsert(
            spec_upsert(
                spec_workout_attr_fold(acc, attrs, cols),
                "start_date"@,
                spec_normalize_date(spec_attr_last(attrs, "startDate"@)),
            ),
            "end_date"@,
            spec_normalize_date(spec_attr_last(attrs, "endDate"@)),
        ),
        "creation_date"@,
        spec_normalize_date(spec_attr_last(attrs, "creationDate"@)),
    )
}

/// The value under `key`, if any.
pub open spec fn spec_key_lookup(
    cols: Seq<(Seq<char>, Seq<char>)>,
    key: Seq<char>,
) -> Option<Seq<char>> {
    match spec_key_index(cols, key) {
        Some(i) => Some(cols[i].1),
        None => None,
    }
}

/// Looks the value under `key` up.
pub fn key_lookup(cols: &Vec<(String, String)>, key: &str) -> (r: Option<String>)
    ensures
        r is Some <==> spec_key_lookup(pairs_view(cols@), key@) is Some,
        r matches Some(v) ==> Some(v@) == spec_key_lookup(pairs_view(cols@), key@),
{
    let needle = key.to_owned();
    let n = cols.len();
    for i in 0..n
        invariant
            needle@ == key@,
            n == cols@.len(),
            forall|j: int| 0 <= j < i ==> pairs_view(cols@)[j].0 != key@,
    {
        if cols[i].0 == needle {
            proof {
                lemma_key_index_found(pairs_view(cols@), key@, i as int);
            }
            return Some(cols[i].1.clone());
        }
    }
    proof {
        lemma_key_index_none(pairs_view(cols@), key@);
    }
    None
}

} // verus!
