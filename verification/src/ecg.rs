use vstd::prelude::*;

verus! {

use vstd::string::{StrSliceExecFns, StringExecFns};
use crate::manifest::{EcgConfig, EcgMetadataMap};
use crate::text::{join, spec_join, views_of};
use crate::time::{spec_digit_val, spec_is_digit};

/// ASCII whitespace, as the trace format uses it.
pub open spec fn spec_is_space(c: char) -> bool {
    c == ' ' || c == '\t' || c == '\r' || c == '\n'
}

/// A string without its leading and trailing ASCII whitespace.
pub open spec fn spec_trim(s: Seq<char>) -> Seq<char>
    decreases s.len(),
{
    if s.len() == 0 {
        s
    } else if spec_is_space(s.first()) {
        spec_trim(s.drop_first())
    } else if spec_is_space(s.last()) {
        spec_trim(s.drop_last())
    } else {
        s
    }
}

/// Trims ASCII whitespace from both ends.
pub fn trim(s: &str) -> (r: String)
    ensures
        r@ == spec_trim(s@),
{
    let n = s.unicode_len();
    let mut lo: usize = 0;
    let mut hi: usize = n;
    proof {
        assert(s@.subrange(0, n as int) =~= s@);
    }
    loop
        invariant
            0 <= lo <= hi <= n,
            n == s@.len(),
            spec_trim(s@) == spec_trim(s@.subrange(lo as int, hi as int)),
        ensures
            0 <= lo <= hi <= n,
            spec_trim(s@) == spec_trim(s@.subrange(lo as int, hi as int)),
            lo < hi ==> !spec_is_space(s@[lo as int]) && !spec_is_space(s@[hi as int - 1]),
        decreases hi - lo,
    {
        if lo >= hi {
            break;
        }
        let c = s.get_char(lo);
        if c == ' ' || c == '\t' || c == '\r' || c == '\n' {
            proof {
                let cur = s@.subrange(lo as int, hi as int);
                assert(cur.drop_first() =~= s@.subrange(lo as int + 1, hi as int));
            }
            lo = lo + 1;
            continue;
        }
        let d = s.get_char(hi - 1);
        if d == ' ' || d == '\t' || d == '\r' || d == '\n' {
            proof {
                let cur = s@.subrange(lo as int, hi as int);
                assert(!spec_is_space(cur.first()));
                assert(cur.drop_last() =~= s@.subrange(lo as int, hi as int - 1));
            }
            hi = hi - 1;
            continue;
        }
        break;
    }
    let out = s.substring_char(lo, hi);
    proof {
        let cur = s@.subrange(lo as int, hi as int);
        if cur.len() > 0 {
            assert(cur.first() == s@[lo as int]);
            assert(cur.last() == s@[hi as int - 1]);
        }
        assert(spec_trim(cur) == cur);
    }
    out.to_owned()
}

/// Whether `s` begins with `prefix`.
pub open spec fn spec_starts_with(s: Seq<char>, prefix: Seq<char>) -> bool {
    s.len() >= prefix.len() && s.subrange(0, prefix.len() as int) == prefix
}

/// Tests a prefix.
pub fn starts_with(s: &str, prefix: &str) -> (r: bool)
    ensures
        r == spec_starts_with(s@, prefix@),
{
    let n = s.unicode_len();
    let m = prefix.unicode_len();
    if n < m {
        return false;
    }
    for i in 0..m
        invariant
            m <= n,
            n == s@.len(),
            m == prefix@.len(),
            forall|j: int| 0 <= j < i ==> s@[j] == prefix@[j],
    {
        if s.get_char(i) != prefix.get_char(i) {
            proof {
                assert(s@.subrange(0, m as int)[i as int] != prefix@[i as int]);
            }
            return false;
        }
    }
    proof {
        assert(s@.subrange(0, m as int) =~= prefix@);
    }
    true
}

/// The string split at its first comma: what precedes it and what follows,
/// or nothing when there is no comma.
pub open spec fn spec_split_first_comma(s: Seq<char>) -> Option<(Seq<char>, Seq<char>)> {
    if exists|i: int| 0 <= i < s.len() && s[i] == ',' {
        let i = spec_first_comma(s, 0);
        Some((s.subrange(0, i), s.subrange(i + 1, s.len() as int)))
    } else {
        None
    }
}

/// The first comma at or after `from`.
pub open spec fn spec_first_comma(s: Seq<char>, from: int) -> int
    decreases s.len() - from,
{
    if from >= s.len() {
        s.len() as int
    } else if s[from] == ',' {
        from
    } else {
        spec_first_comma(s, from + 1)
    }
}

/// Splits at the first comma.
pub fn split_first_comma(s: &str) -> (r: Option<(String, String)>)
    ensures
        r is Some <==> spec_split_first_comma(s@) is Some,
        r matches Some((a, b)) ==> Some((a@, b@)) == spec_split_first_comma(s@),
{
    let n = s.unicode_len();
    for i in 0..n
        invariant
            n == s@.len(),
            forall|j: int| 0 <= j < i ==> s@[j] != ',',
            spec_first_comma(s@, 0) == spec_first_comma(s@, i as int),
    {
        if s.get_char(i) == ',' {
            let a = s.substring_char(0, i);
            let b = s.substring_char(i + 1, n);
            proof {
                assert(spec_first_comma(s@, i as int) == i);
            }
            return Some((a.to_owned(), b.to_owned()));
        }
    }
    proof {
        assert(forall|j: int| 0 <= j < s@.len() ==> s@[j] != ',');
    }
    None
}

/// A string without its leading and trailing double quotes, all of them.
pub open spec fn spec_trim_quotes(s: Seq<char>) -> Seq<char>
    decreases s.len(),
{
    if s.len() == 0 {
        s
    } else if s.first() == '"' {
        spec_trim_quotes(s.drop_first())
    } else if s.last() == '"' {
        spec_trim_quotes(s.drop_last())
    } else {
        s
    }
}

/// Strips double quotes from both ends.
pub fn trim_quotes(s: &str) -> (r: String)
    ensures
        r@ == spec_trim_quotes(s@),
{
    let n = s.unicode_len();
    let mut lo: usize = 0;
    let mut hi: usize = n;
    proof {
        assert(s@.subrange(0, n as int) =~= s@);
    }
    loop
        invariant
            0 <= lo <= hi <= n,
            n == s@.len(),
            spec_trim_quotes(s@) == spec_trim_quotes(s@.subrange(lo as int, hi as int)),
        ensures
            0 <= lo <= hi <= n,
            spec_trim_quotes(s@) == spec_trim_quotes(s@.subrange(lo as int, hi as int)),
            lo < hi ==> s@[lo as int] != '"' && s@[hi as int - 1] != '"',
        decreases hi - lo,
    {
        if lo >= hi {
            break;
        }
        if s.get_char(lo) == '"' {
            proof {
                let cur = s@.subrange(lo as int, hi as int);
                assert(cur.drop_first() =~= s@.subrange(lo as int + 1, hi as int));
            }
            lo = lo + 1;
            continue;
        }
        if s.get_char(hi - 1) == '"' {
            proof {
                let cur = s@.subrange(lo as int, hi as int);
                assert(cur.first() != '"');
                assert(cur.drop_last() =~= s@.subrange(lo as int, hi as int - 1));
            }
            hi = hi - 1;
            continue;
        }
        break;
    }
    let out = s.substring_char(lo, hi);
    proof {
        let cur = s@.subrange(lo as int, hi as int);
        if cur.len() > 0 {
            assert(cur.first() == s@[lo as int]);
            assert(cur.last() == s@[hi as int - 1]);
        }
        assert(spec_trim_quotes(cur) == cur);
    }
    out.to_owned()
}

/// The cleaned value of a metadata line: everything after the first comma,
/// unquoted and trimmed.
pub open spec fn spec_meta_value(line: Seq<char>) -> Option<Seq<char>> {
    match spec_split_first_comma(line) {
        Some(parts) => Some(spec_trim(spec_trim_quotes(parts.1))),
        None => None,
    }
}

/// The trace text split into header metadata and sample lines.
pub struct EcgParse {
    pub metadata: Vec<(String, String)>,
    pub samples: Vec<String>,
}

/// What one header-phase line means.
pub enum HeaderLine {
    /// A metadata line: the matching configured key and the cleaned value.
    Metadata(usize),
    /// A `Lead,` or `Unit,` layout row, skipped.
    Layout,
    /// The first sample: a line opening with a digit or a minus sign.
    FirstSample,
    /// Anything else, ignored.
    Other,
}

/// The index of the first configured key the line starts with, if any.
pub open spec fn spec_meta_key_index(
    keys: Seq<EcgMetadataMap>,
    line: Seq<char>,
) -> Option<int>
    decreases keys.len(),
{
    if keys.len() == 0 {
        None
    } else if spec_starts_with(line, keys.first().csv_key@) {
        Some(0)
    } else {
        match spec_meta_key_index(keys.drop_first(), line) {
            Some(i) => Some(i + 1),
            None => None,
        }
    }
}

/// How the header phase reads a trimmed, non-empty line: a configured
/// metadata key wins; then the `Lead,` and `Unit,` layout rows; then a line
/// opening numerically starts the samples.
pub open spec fn spec_classify_header_line(
    keys: Seq<EcgMetadataMap>,
    line: Seq<char>,
) -> HeaderLine {
    match spec_meta_key_index(keys, line) {
        Some(i) => {
            if spec_split_first_comma(line) is Some {
                HeaderLine::Metadata(i as usize)
            } else {
                HeaderLine::Other
            }
        },
        None => {
            if spec_starts_with(line, "Lead,"@) || spec_starts_with(line, "Unit,"@) {
                HeaderLine::Layout
            } else if line.len() > 0 && (spec_is_digit(line.first()) || line.first() == '-') {
                HeaderLine::FirstSample
            } else {
                HeaderLine::Other
            }
        },
    }
}

/// Finds the first configured key the line starts with.
fn find_meta_key(keys: &Vec<EcgMetadataMap>, line: &str) -> (r: Option<usize>)
    ensures
        r matches Some(i) ==> spec_meta_key_index(keys@, line@) == Some(i as int),
        r is None ==> spec_meta_key_index(keys@, line@) is None,
{
    let nk = keys.len();
    for i in 0..nk
        invariant
            nk == keys@.len(),
            forall|j: int| 0 <= j < i ==> !spec_starts_with(line@, keys@[j].csv_key@),
    {
        if starts_with(line, keys[i].csv_key.as_str()) {
            proof {
                lemma_meta_key_index_found(keys@, line@, i as int);
            }
            return Some(i);
        }
    }
    proof {
        lemma_meta_key_index_none(keys@, line@);
    }
    None
}

/// Classifies one trimmed, non-empty header line.
fn classify_header_line(keys: &Vec<EcgMetadataMap>, line: &str) -> (r: HeaderLine)
    ensures
        r == spec_classify_header_line(keys@, line@),
{
    match find_meta_key(keys, line) {
        Some(i) => {
            if split_first_comma(line).is_some() {
                HeaderLine::Metadata(i)
            } else {
                HeaderLine::Other
            }
        },
        None => {
            if starts_with(line, "Lead,") || starts_with(line, "Unit,") {
                HeaderLine::Layout
            } else if line.unicode_len() > 0 {
                let c = line.get_char(0);
                if (c >= '0' && c <= '9') || c == '-' {
                    HeaderLine::FirstSample
                } else {
                    HeaderLine::Other
                }
            } else {
                HeaderLine::Other
            }
        },
    }
}

/// A found key index is in range.
proof fn lemma_meta_key_index_in_range(keys: Seq<EcgMetadataMap>, line: Seq<char>)
    ensures
        spec_meta_key_index(keys, line) matches Some(i) ==> 0 <= i < keys.len(),
    decreases keys.len(),
{
    if keys.len() > 0 {
        lemma_meta_key_index_in_range(keys.drop_first(), line);
    }
}

/// A first match at `i` is what the key lookup finds.
proof fn lemma_meta_key_index_found(keys: Seq<EcgMetadataMap>, line: Seq<char>, i: int)
    requires
        0 <= i < keys.len(),
        forall|j: int| 0 <= j < i ==> !spec_starts_with(line, keys[j].csv_key@),
        spec_starts_with(line, keys[i].csv_key@),
    ensures
        spec_meta_key_index(keys, line) == Some(i),
    decreases i,
{
    if i > 0 {
        assert forall|j: int|
            0 <= j < i - 1 implies !spec_starts_with(line, keys.drop_first()[j].csv_key@) by {
            assert(keys.drop_first()[j] == keys[j + 1]);
        }
        assert(keys.drop_first()[i - 1] == keys[i]);
        lemma_meta_key_index_found(keys.drop_first(), line, i - 1);
    }
}

/// With no match anywhere, the key lookup finds nothing.
proof fn lemma_meta_key_index_none(keys: Seq<EcgMetadataMap>, line: Seq<char>)
    requires
        forall|j: int| 0 <= j < keys.len() ==> !spec_starts_with(line, keys[j].csv_key@),
    ensures
        spec_meta_key_index(keys, line) is None,
    decreases keys.len(),
{
    if keys.len() > 0 {
        assert forall|j: int|
            0 <= j < keys.drop_first().len() implies !spec_starts_with(
            line,
            keys.drop_first()[j].csv_key@,
        ) by {
            assert(keys.drop_first()[j] == keys[j + 1]);
        }
        lemma_meta_key_index_none(keys.drop_first(), line);
    }
}

/// The split state: gathered metadata, gathered sample lines, and whether
/// the samples have begun.
pub open spec fn spec_ecg_step(
    keys: Seq<EcgMetadataMap>,
    st: (Seq<(Seq<char>, Seq<char>)>, Seq<Seq<char>>, bool),
    raw: Seq<char>,
) -> (Seq<(Seq<char>, Seq<char>)>, Seq<Seq<char>>, bool) {
    let line = spec_trim(raw);
    if line.len() == 0 {
        st
    } else if st.2 {
        (st.0, st.1.push(line), true)
    } else {
        match spec_classify_header_line(keys, line) {
            HeaderLine::Metadata(i) => (
                crate::events::spec_upsert(
                    st.0,
                    keys[i as int].csv_key@,
                    spec_meta_value(line)->0,
                ),
                st.1,
                false,
            ),
            HeaderLine::FirstSample => (st.0, st.1.push(line), true),
            HeaderLine::Layout => st,
            HeaderLine::Other => st,
        }
    }
}

/// The split state after every line, in order.
pub open spec fn spec_ecg_fold(
    keys: Seq<EcgMetadataMap>,
    st: (Seq<(Seq<char>, Seq<char>)>, Seq<Seq<char>>, bool),
    lines: Seq<String>,
) -> (Seq<(Seq<char>, Seq<char>)>, Seq<Seq<char>>, bool)
    decreases lines.len(),
{
    if lines.len() == 0 {
        st
    } else {
        spec_ecg_fold(keys, spec_ecg_step(keys, st, lines.first()@), lines.drop_first())
    }
}

/// Splits a trace into its header metadata and its sample lines: header
/// lines feed the configured metadata keys until the first numeric line,
/// which opens the samples; every later non-blank line is a sample.
pub fn parse_ecg_lines(lines: &Vec<String>, keys: &Vec<EcgMetadataMap>) -> (r: EcgParse)
    ensures
        ({
            let folded = spec_ecg_fold(keys@, (Seq::empty(), Seq::empty(), false), lines@);
            crate::ingest::pairs_view(r.metadata@) == folded.0 && crate::text::views_of(
                r.samples@,
            ) == folded.1
        }),
{
    let mut metadata: Vec<(String, String)> = Vec::new();
    let mut samples: Vec<String> = Vec::new();
    let mut in_samples = false;
    let n = lines.len();
    proof {
        assert(lines@.skip(0) =~= lines@);
        assert(crate::ingest::pairs_view(metadata@) =~= Seq::<(Seq<char>, Seq<char>)>::empty());
        assert(crate::text::views_of(samples@) =~= Seq::<Seq<char>>::empty());
    }
    for i in 0..n
        invariant
            n == lines@.len(),
            spec_ecg_fold(keys@, (Seq::empty(), Seq::empty(), false), lines@)
                == spec_ecg_fold(
                keys@,
                (
                    crate::ingest::pairs_view(metadata@),
                    crate::text::views_of(samples@),
                    in_samples,
                ),
                lines@.skip(i as int),
            ),
    {
        proof {
            assert(lines@.skip(i as int).drop_first() =~= lines@.skip(i as int + 1));
            assert(lines@.skip(i as int).first() == lines@[i as int]);
        }
        let line = trim(lines[i].as_str());
        if line.unicode_len() > 0 {
            if in_samples {
                let ghost before = samples@;
                samples.push(line);
                proof {
                    assert(crate::text::views_of(samples@) =~= crate::text::views_of(
                        before,
                    ).push(spec_trim(lines@[i as int]@)));
                }
            } else {
                match classify_header_line(keys, line.as_str()) {
                    HeaderLine::Metadata(k) => {
                        proof {
                            lemma_meta_key_index_in_range(keys@, line@);
                        }
                        let value = match split_first_comma(line.as_str()) {
                            Some((_, rest)) => trim(trim_quotes(rest.as_str()).as_str()),
                            None => String::new(),
                        };
                        crate::events::upsert(
                            &mut metadata,
                            keys[k].csv_key.as_str(),
                            value.as_str(),
                        );
                    },
                    HeaderLine::FirstSample => {
                        let ghost before = samples@;
                        samples.push(line);
                        in_samples = true;
                        proof {
                            assert(crate::text::views_of(samples@) =~= crate::text::views_of(
                                before,
                            ).push(spec_trim(lines@[i as int]@)));
                        }
                    },
                    HeaderLine::Layout => {},
                    HeaderLine::Other => {},
                }
            }
        }
    }
    proof {
        assert(lines@.skip(n as int) =~= Seq::<String>::empty());
    }
    EcgParse { metadata, samples }
}

/// The value of the digit run `s[from..to)`.
pub open spec fn spec_digits_val(s: Seq<char>, from: int, to: int) -> int
    decreases to - from,
{
    if to <= from {
        0int
    } else {
        spec_digits_val(s, from, to - 1) * 10 + spec_digit_val(s[to - 1])
    }
}

/// Whether `s[from..to)` is all digits.
pub open spec fn spec_all_digits(s: Seq<char>, from: int, to: int) -> bool {
    forall|k: int| from <= k < to ==> spec_is_digit(s[k])
}

/// The first dot at or after `from`.
pub open spec fn spec_dot_index(s: Seq<char>, from: int) -> int
    decreases s.len() - from,
{
    if from >= s.len() {
        s.len() as int
    } else if s[from] == '.' {
        from
    } else {
        spec_dot_index(s, from + 1)
    }
}

/// A plain unsigned decimal read in millionths: an integer part of at most
/// seven digits, optionally a dot and at least one fraction digit, of which
/// the first six count.
pub open spec fn spec_unsigned_decimal_micro(s: Seq<char>) -> Option<int> {
    let d = spec_dot_index(s, 0);
    if d == s.len() {
        if 1 <= s.len() <= 7 && spec_all_digits(s, 0, s.len() as int) {
            Some(spec_digits_val(s, 0, s.len() as int) * 1000000)
        } else {
            None
        }
    } else {
        let fl = s.len() - d - 1;
        if 1 <= d <= 7 && fl >= 1 && spec_all_digits(s, 0, d) && spec_all_digits(
            s,
            d + 1,
            s.len() as int,
        ) {
            let used = if fl <= 6 {
                fl
            } else {
                6
            };
            Some(
                spec_digits_val(s, 0, d) * 1000000 + spec_digits_val(s, d + 1, d + 1 + used)
                    * spec_frac_scale(used),
            )
        } else {
            None
        }
    }
}

/// The factor that places `used` fraction digits at millionths.
pub open spec fn spec_frac_scale(used: int) -> int {
    if used == 1 {
        100000
    } else if used == 2 {
        10000
    } else if used == 3 {
        1000
    } else if used == 4 {
        100
    } else if used == 5 {
        10
    } else {
        1
    }
}

/// A signed decimal read in millionths.
pub open spec fn spec_decimal_micro(s: Seq<char>) -> Option<int> {
    if s.len() > 0 && s.first() == '-' {
        match spec_unsigned_decimal_micro(s.drop_first()) {
            Some(v) => Some(-v),
            None => None,
        }
    } else {
        spec_unsigned_decimal_micro(s)
    }
}

/// The unsigned reading stays under eight integer digits in millionths.
proof fn lemma_unsigned_decimal_micro_bound(s: Seq<char>)
    ensures
        spec_unsigned_decimal_micro(s) matches Some(v) ==> 0 <= v < 10000000000000,
{
    reveal_with_fuel(spec_pow10, 9);
    let d = spec_dot_index(s, 0);
    if spec_unsigned_decimal_micro(s) is Some {
        if d == s.len() {
            lemma_digits_val_bound(s, 0, s.len() as int);
            lemma_pow10_mono(s.len() as int, 7);
        } else {
            let fl = s.len() - d - 1;
            let used = if fl <= 6 {
                fl
            } else {
                6int
            };
            lemma_digits_val_bound(s, 0, d);
            lemma_pow10_mono(d, 7);
            lemma_digits_val_bound(s, d + 1, d + 1 + used);
            let dv = spec_digits_val(s, d + 1, d + 1 + used);
            if used == 1 {
                assert(dv * 100000 < 1000000);
            } else if used == 2 {
                assert(dv * 10000 < 1000000);
            } else if used == 3 {
                assert(dv * 1000 < 1000000);
            } else if used == 4 {
                assert(dv * 100 < 1000000);
            } else if used == 5 {
                assert(dv * 10 < 1000000);
            } else {
                assert(dv * 1 < 1000000);
            }
        }
    }
}

/// Powers of ten never shrink.
proof fn lemma_pow10_mono(a: int, b: int)
    requires
        a <= b,
    ensures
        spec_pow10(a) <= spec_pow10(b),
        spec_pow10(a) >= 1,
    decreases b - a,
{
    if a < b {
        lemma_pow10_mono(a, b - 1);
    } else {
        lemma_pow10_pos(a);
    }
}

/// Powers of ten are positive.
proof fn lemma_pow10_pos(e: int)
    ensures
        spec_pow10(e) >= 1,
    decreases e,
{
    if e > 0 {
        lemma_pow10_pos(e - 1);
    }
}

/// Powers of ten.
pub open spec fn spec_pow10(e: int) -> int
    decreases e,
{
    if e <= 0 {
        1int
    } else {
        10 * spec_pow10(e - 1)
    }
}

/// A digit run of `k` digits stays under the `k`-th power of ten.
proof fn lemma_digits_val_bound(s: Seq<char>, from: int, to: int)
    requires
        spec_all_digits(s, from, to),
    ensures
        0 <= spec_digits_val(s, from, to) < spec_pow10(to - from),
    decreases to - from,
{
    if to > from {
        lemma_digits_val_bound(s, from, to - 1);
        assert(spec_is_digit(s[to - 1]));
        assert(0 <= spec_digit_val(s[to - 1]) <= 9);
    }
}

/// Finds the first dot.
fn find_dot(s: &str) -> (r: usize)
    ensures
        r == spec_dot_index(s@, 0),
        r <= s@.len(),
{
    let n = s.unicode_len();
    for i in 0..n
        invariant
            n == s@.len(),
            forall|j: int| 0 <= j < i ==> s@[j] != '.',
            spec_dot_index(s@, 0) == spec_dot_index(s@, i as int),
    {
        if s.get_char(i) == '.' {
            proof {
                assert(spec_dot_index(s@, i as int) == i);
            }
            return i;
        }
    }
    proof {
        assert(spec_dot_index(s@, n as int) == n);
    }
    n
}

/// Parses the unsigned decimal body in millionths.
fn parse_unsigned_micro(s: &str) -> (r: Option<i64>)
    ensures
        r is Some <==> spec_unsigned_decimal_micro(s@) is Some,
        r matches Some(v) ==> Some(v as int) == spec_unsigned_decimal_micro(s@) && 0 <= v
            < 10000000000000,
{
    proof {
        lemma_unsigned_decimal_micro_bound(s@);
    }
    let n = s.unicode_len();
    let dot = find_dot(s);
    let int_len = dot;
    if int_len < 1 || int_len > 7 {
        return None;
    }
    let int_part = match read_digits(s, 0, dot) {
        Some(v) => v,
        None => { return None; },
    };
    if dot == n {
        return Some((int_part as i64) * 1000000);
    }
    let fl = n - dot - 1;
    if fl < 1 {
        return None;
    }
    let used: usize = if fl <= 6 {
        fl
    } else {
        6
    };
    let frac_part = match read_digits(s, dot + 1, dot + 1 + used) {
        Some(v) => v,
        None => { return None; },
    };
    if used < fl {
        if !all_digits_in(s, dot + 1 + used, n) {
            return None;
        }
    }
    let scale: u64 = if used == 1 {
        100000
    } else if used == 2 {
        10000
    } else if used == 3 {
        1000
    } else if used == 4 {
        100
    } else if used == 5 {
        10
    } else {
        1
    };
    proof {
        lemma_digits_val_bound(s@, dot as int + 1, dot as int + 1 + used as int);
        reveal_with_fuel(spec_pow10, 9);
    }
    Some((int_part as i64) * 1000000 + ((frac_part as u64) * scale) as i64)
}

/// Whether `s[from..to)` is all digits.
fn all_digits_in(s: &str, from: usize, to: usize) -> (r: bool)
    requires
        from <= to <= s@.len(),
        s@.len() <= usize::MAX,
    ensures
        r == spec_all_digits(s@, from as int, to as int),
{
    for i in from..to
        invariant
            from <= i <= to <= s@.len(),
            s@.len() <= usize::MAX,
            spec_all_digits(s@, from as int, i as int),
    {
        let c = s.get_char(i);
        if !(c >= '0' && c <= '9') {
            return false;
        }
    }
    true
}

/// Reads the digit run `s[from..to)`, refusing anything that is not a digit.
fn read_digits(s: &str, from: usize, to: usize) -> (r: Option<u32>)
    requires
        from <= to <= s@.len(),
        s@.len() <= usize::MAX,
        to - from <= 7,
    ensures
        r is Some <==> spec_all_digits(s@, from as int, to as int),
        r matches Some(v) ==> v == spec_digits_val(s@, from as int, to as int),
{
    let mut val: u32 = 0;
    for i in from..to
        invariant
            from <= i <= to <= s@.len(),
            s@.len() <= usize::MAX,
            to - from <= 7,
            spec_all_digits(s@, from as int, i as int),
            val == spec_digits_val(s@, from as int, i as int),
            val < 10000000,
    {
        let c = s.get_char(i);
        if !(c >= '0' && c <= '9') {
            return None;
        }
        proof {
            lemma_digits_val_bound(s@, from as int, i as int + 1);
            reveal_with_fuel(spec_pow10, 9);
            lemma_pow10_mono(i as int + 1 - from, 7);
        }
        val = val * 10 + ((c as u8) - 48) as u32;
    }
    Some(val)
}

/// A signed decimal sample read in millionths of its unit.
pub fn parse_decimal_micro(s: &str) -> (r: Option<i64>)
    ensures
        r is Some <==> spec_decimal_micro(s@) is Some,
        r matches Some(v) ==> Some(v as int) == spec_decimal_micro(s@) && -10000000000000 < v
            < 10000000000000,
{
    let n = s.unicode_len();
    if n > 0 && s.get_char(0) == '-' {
        let rest = s.substring_char(1, n);
        match parse_unsigned_micro(rest) {
            Some(v) => {
                proof {
                    assert(rest@ =~= s@.drop_first());
                }
                Some(-v)
            },
            None => {
                proof {
                    assert(rest@ =~= s@.drop_first());
                }
                None
            },
        }
    } else {
        parse_unsigned_micro(s)
    }
}

/// The samples that read as decimals, in order, in millionths.
pub open spec fn spec_numeric_values(lines: Seq<Seq<char>>) -> Seq<int>
    decreases lines.len(),
{
    if lines.len() == 0 {
        Seq::empty()
    } else {
        spec_numeric_values(lines.drop_last()) + (match spec_decimal_micro(lines.last()) {
            Some(v) => seq![v],
            None => Seq::<int>::empty(),
        })
    }
}

/// The view of sample values.
pub open spec fn values_view(vs: Seq<i64>) -> Seq<int> {
    vs.map_values(|v: i64| v as int)
}

/// Reads every sample line that parses as a decimal, keeping their order.
pub fn numeric_samples(lines: &Vec<String>) -> (r: Vec<i64>)
    ensures
        values_view(r@) == spec_numeric_values(crate::text::views_of(lines@)),
        forall|j: int| 0 <= j < r@.len() ==> -10000000000000 < #[trigger] r@[j]
            < 10000000000000,
{
    let mut out: Vec<i64> = Vec::new();
    let n = lines.len();
    proof {
        assert(crate::text::views_of(lines@).take(0) =~= Seq::<Seq<char>>::empty());
        assert(values_view(out@) =~= Seq::<int>::empty());
    }
    for i in 0..n
        invariant
            n == lines@.len(),
            values_view(out@) == spec_numeric_values(
                crate::text::views_of(lines@).take(i as int),
            ),
            forall|j: int| 0 <= j < out@.len() ==> -10000000000000 < #[trigger] out@[j]
                < 10000000000000,
    {
        let ghost before = out@;
        match parse_decimal_micro(lines[i].as_str()) {
            Some(v) => {
                out.push(v);
                proof {
                    assert(values_view(out@) =~= values_view(before).push(v as int));
                }
            },
            None => {},
        }
        proof {
            assert(crate::text::views_of(lines@).take(i as int + 1).drop_last()
                =~= crate::text::views_of(lines@).take(i as int));
            assert(crate::text::views_of(lines@).take(i as int + 1).last()
                == lines@[i as int]@);
        }
    }
    proof {
        assert(crate::text::views_of(lines@).take(n as int) =~= crate::text::views_of(lines@));
    }
    out
}

/// The sum of the samples.
pub open spec fn spec_values_sum(vs: Seq<i64>) -> int
    decreases vs.len(),
{
    if vs.len() == 0 {
        0int
    } else {
        spec_values_sum(vs.drop_last()) + vs.last()
    }
}

/// The largest sample.
pub open spec fn spec_values_max(vs: Seq<i64>) -> int
    decreases vs.len(),
{
    if vs.len() <= 1 {
        if vs.len() == 0 {
            0int
        } else {
            vs[0] as int
        }
    } else if vs.last() as int >= spec_values_max(vs.drop_last()) {
        vs.last() as int
    } else {
        spec_values_max(vs.drop_last())
    }
}

/// Sums the samples.
pub fn values_sum(vs: &Vec<i64>) -> (r: i128)
    requires
        forall|j: int| 0 <= j < vs@.len() ==> -10000000000000 < #[trigger] vs@[j]
            < 10000000000000,
    ensures
        r == spec_values_sum(vs@),
        -10000000000000 * vs@.len() <= r <= 10000000000000 * vs@.len(),
{
    let mut sum: i128 = 0;
    let n = vs.len();
    for i in 0..n
        invariant
            n == vs@.len(),
            forall|j: int| 0 <= j < vs@.len() ==> -10000000000000 < #[trigger] vs@[j]
                < 10000000000000,
            sum == spec_values_sum(vs@.take(i as int)),
            -10000000000000 * (i as int) <= sum <= 10000000000000 * (i as int),
    {
        proof {
            assert(vs@.take(i as int + 1).drop_last() =~= vs@.take(i as int));
            assert(vs@.take(i as int + 1).last() == vs@[i as int]);
            assert(10000000000000 * (i as int + 1) == 10000000000000 * (i as int)
                + 10000000000000);
            assert(-10000000000000 * (i as int + 1) == -10000000000000 * (i as int)
                + -10000000000000);
            assert(10000000000000 * (n as int) <= 0x10000000000000000 * 10000000000000)
                by (nonlinear_arith)
                requires
                    n as int <= 0x10000000000000000,
            ;
        }
        sum = sum + (vs[i] as i128);
    }
    proof {
        assert(vs@.take(n as int) =~= vs@);
    }
    sum
}

/// Finds the largest sample.
pub fn values_max(vs: &Vec<i64>) -> (r: i64)
    requires
        vs@.len() > 0,
    ensures
        r == spec_values_max(vs@),
{
    let mut mx: i64 = vs[0];
    let n = vs.len();
    proof {
        assert(vs@.take(1) =~= seq![vs@[0]]);
    }
    for i in 1..n
        invariant
            1 <= i <= n,
            n == vs@.len(),
            mx == spec_values_max(vs@.take(i as int)),
    {
        proof {
            assert(vs@.take(i as int + 1).drop_last() =~= vs@.take(i as int));
            assert(vs@.take(i as int + 1).last() == vs@[i as int]);
        }
        if vs[i] >= mx {
            mx = vs[i];
        }
    }
    proof {
        assert(vs@.take(n as int) =~= vs@);
    }
    mx
}

/// Whether a sample clears the detection threshold, the mean plus six
/// tenths of the spread to the maximum, stated over the sample count, sum
/// and maximum without division.
pub open spec fn spec_above_threshold(v: int, n: int, sum: int, mx: int) -> bool {
    10 * n * v > 10 * sum + 6 * (n * mx - sum)
}

/// The detected R-peak indices from `i` on, given the last peak index:
/// a sample above the threshold is a peak when the refractory window has
/// passed or no peak was seen yet.
pub open spec fn spec_peaks_from(
    vs: Seq<i64>,
    n: int,
    sum: int,
    mx: int,
    w: int,
    i: int,
    last: int,
) -> Seq<int>
    decreases vs.len() - i,
{
    if i < 0 || i >= vs.len() {
        Seq::empty()
    } else if spec_above_threshold(vs[i] as int, n, sum, mx) && (i - last > w || last == 0) {
        seq![i] + spec_peaks_from(vs, n, sum, mx, w, i + 1, i)
    } else {
        spec_peaks_from(vs, n, sum, mx, w, i + 1, last)
    }
}

/// The view of peak indices.
pub open spec fn indices_view(vs: Seq<usize>) -> Seq<int> {
    vs.map_values(|v: usize| v as int)
}

/// The largest sample stays within the sample bounds.
proof fn lemma_values_max_bound(vs: Seq<i64>)
    requires
        forall|j: int| 0 <= j < vs.len() ==> -10000000000000 < #[trigger] vs[j]
            < 10000000000000,
    ensures
        -10000000000000 < spec_values_max(vs) < 10000000000000,
    decreases vs.len(),
{
    if vs.len() > 1 {
        lemma_values_max_bound(vs.drop_last());
    }
}

/// Decides the threshold comparison on concrete numbers.
fn above_threshold(v: i64, n: i128, sum: i128, mx: i64) -> (r: bool)
    requires
        0 < n <= 0x10000000000000000,
        -10000000000000 < v < 10000000000000,
        -10000000000000 < mx < 10000000000000,
        -10000000000000 * n <= sum <= 10000000000000 * n,
    ensures
        r == spec_above_threshold(v as int, n as int, sum as int, mx as int),
{
    proof {
        assert(-200000000000000000000000000000000 < n * (v as i128)
            < 200000000000000000000000000000000) by (nonlinear_arith)
            requires
                0 < n <= 0x10000000000000000,
                -10000000000000 < (v as i128) && (v as i128) < 10000000000000,
        ;
        assert(-200000000000000000000000000000000 < n * (mx as i128)
            < 200000000000000000000000000000000) by (nonlinear_arith)
            requires
                0 < n <= 0x10000000000000000,
                -10000000000000 < (mx as i128) && (mx as i128) < 10000000000000,
        ;
        assert(-200000000000000000000000000000000 < sum < 200000000000000000000000000000000)
            by (nonlinear_arith)
            requires
                0 < n <= 0x10000000000000000,
                -10000000000000 * n <= sum <= 10000000000000 * n,
        ;
    }
    let lhs: i128 = 10 * (n * (v as i128));
    let rhs: i128 = 10 * sum + 6 * (n * (mx as i128) - sum);
    proof {
        assert(10 * (n * (v as i128)) == 10 * n * (v as i128)) by (nonlinear_arith);
    }
    lhs > rhs
}

/// Detects the R-peaks of a trace: the samples above the threshold, at
/// least the refractory window apart.
pub fn detect_r_peaks(vs: &Vec<i64>, w: usize) -> (r: Vec<usize>)
    requires
        vs@.len() > 0,
        forall|j: int| 0 <= j < vs@.len() ==> -10000000000000 < #[trigger] vs@[j]
            < 10000000000000,
    ensures
        indices_view(r@) == spec_peaks_from(
            vs@,
            vs@.len() as int,
            spec_values_sum(vs@),
            spec_values_max(vs@),
            w as int,
            0,
            0,
        ),
        forall|j: int| 0 <= j < r@.len() ==> #[trigger] r@[j] < vs@.len(),
{
    let n = vs.len();
    let sum = values_sum(vs);
    let mx = values_max(vs);
    proof {
        lemma_values_max_bound(vs@);
    }
    let mut peaks: Vec<usize> = Vec::new();
    let mut last: usize = 0;
    proof {
        assert(indices_view(peaks@) =~= Seq::<int>::empty());
    }
    for i in 0..n
        invariant
            n == vs@.len(),
            0 < n <= 0x10000000000000000,
            forall|j: int| 0 <= j < vs@.len() ==> -10000000000000 < #[trigger] vs@[j]
                < 10000000000000,
            sum == spec_values_sum(vs@),
            -10000000000000 * (n as int) <= sum <= 10000000000000 * (n as int),
            mx == spec_values_max(vs@),
            -10000000000000 < mx < 10000000000000,
            last < n,
            last <= i,
            forall|j: int| 0 <= j < peaks@.len() ==> #[trigger] peaks@[j] < vs@.len(),
            spec_peaks_from(vs@, n as int, sum as int, mx as int, w as int, 0, 0)
                == indices_view(peaks@) + spec_peaks_from(
                vs@,
                n as int,
                sum as int,
                mx as int,
                w as int,
                i as int,
                last as int,
            ),
    {
        let ghost before = peaks@;
        if above_threshold(vs[i], n as i128, sum, mx) && (i - last > w || last == 0) {
            peaks.push(i);
            last = i;
            proof {
                assert(indices_view(peaks@) =~= indices_view(before).push(i as int));
                assert(indices_view(before) + (seq![i as int] + spec_peaks_from(
                    vs@,
                    n as int,
                    sum as int,
                    mx as int,
                    w as int,
                    i as int + 1,
                    i as int,
                )) =~= indices_view(peaks@) + spec_peaks_from(
                    vs@,
                    n as int,
                    sum as int,
                    mx as int,
                    w as int,
                    i as int + 1,
                    i as int,
                ));
            }
        }
    }
    proof {
        assert(indices_view(peaks@) + Seq::<int>::empty() =~= indices_view(peaks@));
    }
    peaks
}

/// The heart rate the peaks imply, in milli-beats per minute: sixty seconds
/// over the mean peak-to-peak interval, which telescopes to the count and
/// span of the peaks; rounded half up.
pub open spec fn spec_hr_milli(rate: int, k: int, first: int, last: int) -> int {
    (60000 * rate * (k - 1) + (last - first) / 2) / (last - first)
}

/// Computes the implied heart rate in milli-beats per minute.
pub fn hr_milli(rate: u32, k: usize, first: usize, last: usize) -> (r: u64)
    requires
        rate >= 1,
        2 <= k,
        first < last,
        k - 1 <= last - first,
    ensures
        r == spec_hr_milli(rate as int, k as int, first as int, last as int),
{
    proof {
        assert((60000 * (rate as u128)) * (((k - 1) as usize) as u128) < 0x10000000000000000000000000000) by (nonlinear_arith)
            requires
                60000 * (rate as u128) <= 0x1000000000000,
                (((k - 1) as usize) as u128) <= 0xffffffffffffffff,
        ;
    }
    let num: u128 = 60000 * (rate as u128) * ((k - 1) as u128);
    let span: u128 = (last - first) as u128;
    proof {
        assert(num <= 60000 * (rate as u128) * span) by (nonlinear_arith)
            requires
                (k - 1) as u128 <= span,
                rate as u128 >= 1,
                num == 60000 * (rate as u128) * ((k - 1) as u128),
        ;
    }
    let q: u128 = (num + span / 2) / span;
    proof {
        assert(q * span <= num + span / 2) by (nonlinear_arith)
            requires
                span > 0,
                q == (num + span / 2) / (span as int),
        ;
        assert(q <= 60000 * (rate as u128)) by (nonlinear_arith)
            requires
                span >= 1,
                q * span <= num + span / 2,
                num <= 60000 * (rate as u128) * span,
        ;
        assert(60000 * (rate as u128) <= 0xffffffffffffffff);
    }
    q as u64
}

/// The peaks lie in the scanned range, rise strictly, and span at least
/// their count.
proof fn lemma_peaks_structure(
    vs: Seq<i64>,
    n: int,
    sum: int,
    mx: int,
    w: int,
    i: int,
    last: int,
)
    requires
        0 <= i,
    ensures
        ({
            let peaks = spec_peaks_from(vs, n, sum, mx, w, i, last);
            &&& forall|j: int| 0 <= j < peaks.len() ==> i <= #[trigger] peaks[j] < vs.len()
            &&& forall|j1: int, j2: int|
                0 <= j1 < j2 < peaks.len() ==> peaks[j1] < peaks[j2]
            &&& (peaks.len() >= 1 ==> peaks.last() - peaks.first() >= peaks.len() - 1)
        }),
    decreases vs.len() - i,
{
    let peaks = spec_peaks_from(vs, n, sum, mx, w, i, last);
    if i < vs.len() {
        if spec_above_threshold(vs[i] as int, n, sum, mx) && (i - last > w || last == 0) {
            lemma_peaks_structure(vs, n, sum, mx, w, i + 1, i);
            let rest = spec_peaks_from(vs, n, sum, mx, w, i + 1, i);
            assert(peaks == seq![i] + rest);
            assert(peaks.first() == i);
            assert forall|j: int| 0 <= j < peaks.len() implies i <= #[trigger] peaks[j]
                < vs.len() by {
                if j > 0 {
                    assert(peaks[j] == rest[j - 1]);
                }
            }
            assert forall|j1: int, j2: int|
                0 <= j1 < j2 < peaks.len() implies peaks[j1] < peaks[j2] by {
                assert(peaks[j2] == rest[j2 - 1]);
                if j1 > 0 {
                    assert(peaks[j1] == rest[j1 - 1]);
                }
            }
            if peaks.len() >= 2 {
                assert(peaks.last() == rest.last());
                assert(rest.first() >= i + 1);
                assert(rest.last() - rest.first() >= rest.len() - 1);
            }
        } else {
            lemma_peaks_structure(vs, n, sum, mx, w, i + 1, last);
        }
    }
}

/// The derived heart rate of a trace: zero without samples, a positive
/// sample rate, or at least two peaks; otherwise sixty seconds over the
/// mean peak-to-peak interval, in milli-beats per minute.
pub open spec fn spec_ecg_hr_milli(vs: Seq<i64>, rate: int) -> int {
    if vs.len() == 0 || rate <= 0 {
        0
    } else {
        let peaks = spec_peaks_from(
            vs,
            vs.len() as int,
            spec_values_sum(vs),
            spec_values_max(vs),
            rate / 5,
            0,
            0,
        );
        if peaks.len() < 2 {
            0
        } else {
            spec_hr_milli(rate, peaks.len() as int, peaks.first(), peaks.last())
        }
    }
}

/// Computes the derived heart rate of a trace.
pub fn calculate_ecg_hr_milli(vs: &Vec<i64>, rate: u32) -> (r: u64)
    requires
        forall|j: int| 0 <= j < vs@.len() ==> -10000000000000 < #[trigger] vs@[j]
            < 10000000000000,
    ensures
        r == spec_ecg_hr_milli(vs@, rate as int),
{
    if vs.len() == 0 || rate == 0 {
        return 0;
    }
    let w: usize = (rate / 5) as usize;
    let peaks = detect_r_peaks(vs, w);
    proof {
        lemma_peaks_structure(
            vs@,
            vs@.len() as int,
            spec_values_sum(vs@),
            spec_values_max(vs@),
            w as int,
            0,
            0,
        );
    }
    if peaks.len() < 2 {
        return 0;
    }
    let first = peaks[0];
    let last = peaks[peaks.len() - 1];
    proof {
        let pv = indices_view(peaks@);
        assert(pv[0] == peaks@[0] as int);
        assert(pv[pv.len() - 1] == peaks@[peaks@.len() - 1] as int);
        assert(pv.first() == first as int);
        assert(pv.last() == last as int);
        assert(pv.last() - pv.first() >= pv.len() - 1);
        assert(pv[0] < pv[pv.len() - 1]);
    }
    hr_milli(rate, peaks.len(), first, last)
}

/// The first run of characters before any ASCII space, and its reading as a
/// plain integer: the sample-rate header value, 512 when it does not parse.
pub open spec fn spec_sample_rate(v: Seq<char>) -> int {
    let sp = spec_space_index(v, 0);
    let tok = v.subrange(0, sp);
    if 1 <= tok.len() <= 9 && spec_all_digits(tok, 0, tok.len() as int) {
        spec_digits_val(tok, 0, tok.len() as int)
    } else {
        512
    }
}

/// The first ASCII space at or after `from`.
pub open spec fn spec_space_index(s: Seq<char>, from: int) -> int
    decreases s.len() - from,
{
    if from >= s.len() {
        s.len() as int
    } else if spec_is_space(s[from]) {
        from
    } else {
        spec_space_index(s, from + 1)
    }
}

/// Reads the sample rate from its header value, falling back to 512.
pub fn parse_sample_rate(v: &str) -> (r: u32)
    ensures
        r == spec_sample_rate(v@),
{
    let n = v.unicode_len();
    let sp = find_space(v);
    let tok = v.substring_char(0, sp);
    proof {
        assert(tok@ =~= v@.subrange(0, spec_space_index(v@, 0)));
    }
    let len = sp;
    if len < 1 || len > 9 {
        return 512;
    }
    match read_digits_u32(tok, 0, len) {
        Some(val) => val,
        None => 512,
    }
}

/// Finds the first ASCII space.
fn find_space(s: &str) -> (r: usize)
    ensures
        r == spec_space_index(s@, 0),
        r <= s@.len(),
{
    let n = s.unicode_len();
    for i in 0..n
        invariant
            n == s@.len(),
            forall|j: int| 0 <= j < i ==> !spec_is_space(s@[j]),
            spec_space_index(s@, 0) == spec_space_index(s@, i as int),
    {
        let c = s.get_char(i);
        if c == ' ' || c == '\t' || c == '\r' || c == '\n' {
            proof {
                assert(spec_space_index(s@, i as int) == i);
            }
            return i;
        }
    }
    proof {
        assert(spec_space_index(s@, n as int) == n);
    }
    n
}

/// Reads a digit run of at most nine digits.
fn read_digits_u32(s: &str, from: usize, to: usize) -> (r: Option<u32>)
    requires
        from <= to <= s@.len(),
        s@.len() <= usize::MAX,
        to - from <= 9,
    ensures
        r is Some <==> spec_all_digits(s@, from as int, to as int),
        r matches Some(v) ==> v == spec_digits_val(s@, from as int, to as int),
{
    let mut val: u32 = 0;
    for i in from..to
        invariant
            from <= i <= to <= s@.len(),
            s@.len() <= usize::MAX,
            to - from <= 9,
            spec_all_digits(s@, from as int, i as int),
            val == spec_digits_val(s@, from as int, i as int),
            val < 1000000000,
    {
        let c = s.get_char(i);
        if !(c >= '0' && c <= '9') {
            return None;
        }
        proof {
            lemma_digits_val_bound(s@, from as int, i as int + 1);
            reveal_with_fuel(spec_pow10, 11);
            lemma_pow10_mono(i as int + 1 - from, 9);
        }
        val = val * 10 + ((c as u8) - 48) as u32;
    }
    Some(val)
}

/// The insert statement of the ECG target table: the fixed identity and
/// derived columns, the configured metadata columns, then the payload, all
/// values bound as parameters.
pub open spec fn spec_ecg_insert_sql(cfg: EcgConfig) -> Seq<char> {
    "INSERT INTO "@ + cfg.target_table@
        + " (file_name, sample_count, mean_voltage, calculated_hr"@ + spec_ecg_insert_cols(
        cfg.metadata_map@,
    ) + ", "@ + cfg.payload.db_column@ + ") VALUES ("@ + spec_join(
        spec_ecg_marks(cfg.metadata_map@),
        ", "@,
    ) + ")"@
}

/// The configured metadata column names, each preceded by a separator.
pub open spec fn spec_ecg_insert_cols(ms: Seq<EcgMetadataMap>) -> Seq<char>
    decreases ms.len(),
{
    if ms.len() == 0 {
        Seq::empty()
    } else {
        spec_ecg_insert_cols(ms.drop_last()) + ", "@ + ms.last().db_column@
    }
}

/// One bind mark per inserted column: the four fixed ones, the metadata
/// columns, and the payload.
pub open spec fn spec_ecg_marks(ms: Seq<EcgMetadataMap>) -> Seq<Seq<char>>
    decreases ms.len(),
{
    if ms.len() == 0 {
        seq!["?"@, "?"@, "?"@, "?"@, "?"@]
    } else {
        spec_ecg_marks(ms.drop_last()).push("?"@)
    }
}

/// Builds the insert statement for one ECG recording.
pub fn ecg_insert_sql(cfg: &EcgConfig) -> (r: String)
    ensures
        r@ == spec_ecg_insert_sql(*cfg),
{
    let mut cols_part = String::new();
    let mut marks: Vec<String> = Vec::new();
    marks.push("?".to_owned());
    marks.push("?".to_owned());
    marks.push("?".to_owned());
    marks.push("?".to_owned());
    marks.push("?".to_owned());
    let n = cfg.metadata_map.len();
    proof {
        assert(cfg.metadata_map@.take(0) =~= Seq::<EcgMetadataMap>::empty());
        assert(cols_part@ =~= spec_ecg_insert_cols(cfg.metadata_map@.take(0)));
        assert(views_of(marks@) =~= spec_ecg_marks(cfg.metadata_map@.take(0)));
    }
    for i in 0..n
        invariant
            n == cfg.metadata_map@.len(),
            cols_part@ == spec_ecg_insert_cols(cfg.metadata_map@.take(i as int)),
            views_of(marks@) == spec_ecg_marks(cfg.metadata_map@.take(i as int)),
    {
        let ghost before = marks@;
        cols_part.append(", ");
        cols_part.append(cfg.metadata_map[i].db_column.as_str());
        marks.push("?".to_owned());
        proof {
            assert(cfg.metadata_map@.take(i as int + 1).drop_last() =~= cfg.metadata_map@.take(
                i as int,
            ));
            assert(cfg.metadata_map@.take(i as int + 1).last()
                == cfg.metadata_map@[i as int]);
            assert(views_of(marks@) =~= views_of(before).push("?"@));
        }
    }
    proof {
        assert(cfg.metadata_map@.take(n as int) =~= cfg.metadata_map@);
    }
    let joined_marks = join(&marks, ", ");
    let mut out = String::new();
    out.append("INSERT INTO ");
    out.append(cfg.target_table.as_str());
    out.append(" (file_name, sample_count, mean_voltage, calculated_hr");
    out.append(cols_part.as_str());
    out.append(", ");
    out.append(cfg.payload.db_column.as_str());
    out.append(") VALUES (");
    out.append(joined_marks.as_str());
    out.append(")");
    proof {
        assert(out@ =~= spec_ecg_insert_sql(*cfg));
    }
    out
}

} // verus!
