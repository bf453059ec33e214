use vstd::prelude::*;

verus! {

use vstd::string::{StrSliceExecFns, StringExecFns};
use crate::text::views_of;

/// Whether a field must be quoted: it holds a comma, a quote or a line
/// break.
pub open spec fn spec_needs_quote(s: Seq<char>) -> bool {
    exists|i: int|
        0 <= i < s.len() && (s[i] == ',' || s[i] == '"' || s[i] == '\n' || s[i] == '\r')
}

/// A field body with every quote doubled.
pub open spec fn spec_escape_quotes(s: Seq<char>) -> Seq<char>
    decreases s.len(),
{
    if s.len() == 0 {
        s
    } else if s.last() == '"' {
        spec_escape_quotes(s.drop_last()) + seq!['"', '"']
    } else {
        spec_escape_quotes(s.drop_last()).push(s.last())
    }
}

/// A field as it stands in the file: quoted and escaped when it needs it.
pub open spec fn spec_csv_field(s: Seq<char>) -> Seq<char> {
    if spec_needs_quote(s) {
        seq!['"'] + spec_escape_quotes(s) + seq!['"']
    } else {
        s
    }
}

/// One record: its fields separated by commas, closed by a line break.
pub open spec fn spec_csv_row(fields: Seq<Seq<char>>) -> Seq<char>
    decreases fields.len(),
{
    if fields.len() == 0 {
        seq!['\n']
    } else if fields.len() == 1 {
        spec_csv_field(fields[0]) + seq!['\n']
    } else {
        let init = spec_csv_row(fields.drop_last()).drop_last();
        init + seq![','] + spec_csv_field(fields.last()) + seq!['\n']
    }
}

/// The whole file: one record per row, in order.
pub open spec fn spec_csv(rows: Seq<Seq<Seq<char>>>) -> Seq<char>
    decreases rows.len(),
{
    if rows.len() == 0 {
        Seq::empty()
    } else {
        spec_csv(rows.drop_last()) + spec_csv_row(rows.last())
    }
}

/// Decides whether a field must be quoted.
fn needs_quote(s: &str) -> (r: bool)
    ensures
        r == spec_needs_quote(s@),
{
    let n = s.unicode_len();
    for i in 0..n
        invariant
            n == s@.len(),
            forall|j: int|
                0 <= j < i ==> !(s@[j] == ',' || s@[j] == '"' || s@[j] == '\n' || s@[j]
                    == '\r'),
    {
        let c = s.get_char(i);
        if c == ',' || c == '"' || c == '\n' || c == '\r' {
            return true;
        }
    }
    false
}

/// Doubles every quote of a field body.
fn escape_quotes(s: &str) -> (r: String)
    ensures
        r@ == spec_escape_quotes(s@),
{
    let mut out = String::new();
    let n = s.unicode_len();
    proof {
        assert(s@.take(0) =~= Seq::<char>::empty());
    }
    for i in 0..n
        invariant
            n == s@.len(),
            out@ == spec_escape_quotes(s@.take(i as int)),
    {
        let piece = s.substring_char(i, i + 1);
        if s.get_char(i) == '"' {
            out.append("\"\"");
        } else {
            out.append(piece);
        }
        proof {
            reveal_strlit("\"\"");
            assert(s@.take(i as int + 1).drop_last() =~= s@.take(i as int));
            assert(s@.take(i as int + 1).last() == s@[i as int]);
            assert(piece@ =~= seq![s@[i as int]]);
            assert(out@ =~= spec_escape_quotes(s@.take(i as int + 1)));
        }
    }
    proof {
        assert(s@.take(n as int) =~= s@);
    }
    out
}

/// Writes one field.
fn csv_field(s: &str) -> (r: String)
    ensures
        r@ == spec_csv_field(s@),
{
    if needs_quote(s) {
        let mut out = String::new();
        out.append("\"");
        let escaped = escape_quotes(s);
        out.append(escaped.as_str());
        out.append("\"");
        proof {
            reveal_strlit("\"");
            assert(out@ =~= spec_csv_field(s@));
        }
        out
    } else {
        s.to_owned()
    }
}

/// Writes one record.
fn csv_row(fields: &Vec<String>) -> (r: String)
    ensures
        r@ == spec_csv_row(views_of(fields@)),
{
    let mut out = String::new();
    let n = fields.len();
    for i in 0..n
        invariant
            n == fields@.len(),
            i > 0 ==> out@ == spec_csv_row(views_of(fields@.take(i as int))).drop_last(),
            i == 0 ==> out@ == Seq::<char>::empty(),
    {
        if i > 0 {
            out.append(",");
        }
        let field = csv_field(fields[i].as_str());
        out.append(field.as_str());
        proof {
            reveal_strlit(",");
            let taken = views_of(fields@.take(i as int + 1));
            assert(taken.drop_last() =~= views_of(fields@.take(i as int)));
            assert(taken.last() == fields@[i as int]@);
            if i == 0 {
                assert(taken =~= seq![fields@[0]@]);
                assert(spec_csv_row(taken) =~= spec_csv_field(fields@[0]@) + seq!['\n']);
                assert(out@ =~= spec_csv_row(taken).drop_last());
            } else {
                assert(out@ =~= spec_csv_row(taken).drop_last());
            }
        }
    }
    out.append("\n");
    proof {
        reveal_strlit("\n");
        assert(fields@.take(n as int) =~= fields@);
        if n == 0 {
            assert(out@ =~= spec_csv_row(views_of(fields@)));
        } else {
            assert(spec_csv_row(views_of(fields@)).last() == '\n');
            assert(out@ =~= spec_csv_row(views_of(fields@)).drop_last().push('\n'));
            assert(spec_csv_row(views_of(fields@)).drop_last().push('\n') =~= spec_csv_row(
                views_of(fields@),
            ));
        }
    }
    out
}

/// The views of a table of fields.
pub open spec fn rows_view(rows: Seq<Vec<String>>) -> Seq<Seq<Seq<char>>> {
    rows.map_values(|r: Vec<String>| views_of(r@))
}

/// Writes a table as a file: the header is simply its first row.
pub fn csv_encode(rows: &Vec<Vec<String>>) -> (r: String)
    ensures
        r@ == spec_csv(rows_view(rows@)),
{
    let mut out = String::new();
    let n = rows.len();
    proof {
        assert(rows_view(rows@.take(0)) =~= Seq::<Seq<Seq<char>>>::empty());
    }
    for i in 0..n
        invariant
            n == rows@.len(),
            out@ == spec_csv(rows_view(rows@.take(i as int))),
    {
        let row = csv_row(&rows[i]);
        out.append(row.as_str());
        proof {
            assert(rows_view(rows@.take(i as int + 1)).drop_last() =~= rows_view(
                rows@.take(i as int),
            ));
            assert(rows_view(rows@.take(i as int + 1)).last() == views_of(rows@[i as int]@));
            assert(out@ =~= spec_csv(rows_view(rows@.take(i as int + 1))));
        }
    }
    proof {
        assert(rows@.take(n as int) =~= rows@);
    }
    out
}

} // verus!
