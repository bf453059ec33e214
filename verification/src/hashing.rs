use vstd::prelude::*;

verus! {

use vstd::string::{StrSliceExecFns, StringExecFns};

/// The SHA-256 digest of a byte sequence. The digest is a pure function of
/// the bytes; what it is on given bytes the library never states.
pub uninterp spec fn sha256_of(data: Seq<u8>) -> Seq<u8>;

/// Relies on sha2's Sha256 through the Digest trait: the 32-byte digest
/// depends on the input bytes alone.
#[verifier::external_body]
fn sha256(data: &[u8]) -> (r: Vec<u8>)
    ensures
        r@ == sha256_of(data@),
        r@.len() == 32,
{
    let out = <sha2::Sha256 as sha2::Digest>::digest(data);
    out.to_vec()
}

/// The character that writes the hexadecimal digit `d` in lower case.
pub open spec fn spec_hex_char(d: int) -> char {
    if d == 10 {
        'a'
    } else if d == 11 {
        'b'
    } else if d == 12 {
        'c'
    } else if d == 13 {
        'd'
    } else if d == 14 {
        'e'
    } else if d == 15 {
        'f'
    } else {
        crate::time::spec_digit_char(d)
    }
}

/// Lower-case hexadecimal writing of a byte sequence, two digits per byte.
pub open spec fn spec_hex_of_bytes(b: Seq<u8>) -> Seq<char>
    decreases b.len(),
{
    if b.len() == 0 {
        Seq::empty()
    } else {
        seq![
            spec_hex_char(b.first() as int / 16),
            spec_hex_char(b.first() as int % 16),
        ] + spec_hex_of_bytes(b.drop_first())
    }
}

/// The string that writes the hexadecimal digit `d` in lower case.
fn hex_str(d: u8) -> (r: &'static str)
    requires
        d < 16,
    ensures
        r@ == seq![spec_hex_char(d as int)],
{
    if d < 10 {
        crate::time::digit_str(d)
    } else {
        let r: &'static str = match d {
            10 => "a",
            11 => "b",
            12 => "c",
            13 => "d",
            14 => "e",
            _ => "f",
        };
        proof {
            reveal_strlit("a");
            reveal_strlit("b");
            reveal_strlit("c");
            reveal_strlit("d");
            reveal_strlit("e");
            reveal_strlit("f");
            assert(r@ =~= seq![spec_hex_char(d as int)]);
        }
        r
    }
}

/// Writes bytes as lower-case hexadecimal, two digits per byte.
pub fn hex_of_bytes(b: &[u8]) -> (r: String)
    ensures
        r@ == spec_hex_of_bytes(b@),
{
    let mut out = String::new();
    let n = b.len();
    proof {
        assert(b@.skip(0) =~= b@);
    }
    for i in 0..n
        invariant
            n == b@.len(),
            spec_hex_of_bytes(b@) =~= out@ + spec_hex_of_bytes(b@.skip(i as int)),
    {
        let byte = b[i];
        out.append(hex_str(byte / 16));
        out.append(hex_str(byte % 16));
        proof {
            assert(b@.skip(i as int).drop_first() =~= b@.skip(i as int + 1));
        }
    }
    proof {
        assert(b@.skip(n as int) =~= Seq::<u8>::empty());
        assert(out@ =~= spec_hex_of_bytes(b@));
    }
    out
}

/// The bytes whose digest identifies a biometric record: the UTF-8 writing of
/// target table, target column, start date, end date and value, run together.
pub open spec fn spec_record_content(
    table: Seq<char>,
    column: Seq<char>,
    start: Seq<char>,
    end: Seq<char>,
    value: Seq<char>,
) -> Seq<u8> {
    vstd::utf8::encode_utf8(table) + vstd::utf8::encode_utf8(column) + vstd::utf8::encode_utf8(
        start,
    ) + vstd::utf8::encode_utf8(end) + vstd::utf8::encode_utf8(value)
}

/// The synthetic row identifier of a biometric record: the lower-case
/// hexadecimal SHA-256 digest of the record's content.
pub open spec fn spec_record_uuid(
    table: Seq<char>,
    column: Seq<char>,
    start: Seq<char>,
    end: Seq<char>,
    value: Seq<char>,
) -> Seq<char> {
    spec_hex_of_bytes(sha256_of(spec_record_content(table, column, start, end, value)))
}

/// Computes the content-hash identifier of one record.
pub fn record_uuid(table: &str, column: &str, start: &str, end: &str, value: &str) -> (r: String)
    ensures
        r@ == spec_record_uuid(table@, column@, start@, end@, value@),
        r@.len() == 64,
{
    let mut data = table.as_bytes_vec();
    data.extend_from_slice(column.as_bytes());
    data.extend_from_slice(start.as_bytes());
    data.extend_from_slice(end.as_bytes());
    data.extend_from_slice(value.as_bytes());
    proof {
        assert(data@ =~= spec_record_content(table@, column@, start@, end@, value@));
    }
    let digest = sha256(data.as_slice());
    proof {
        lemma_hex_len(digest@);
    }
    hex_of_bytes(digest.as_slice())
}

/// Hash stability: two records whose table, column, start, end and value
/// agree get the same synthetic identifier, whenever and wherever it is
/// computed.
pub proof fn lemma_record_uuid_stable(
    t1: Seq<char>,
    c1: Seq<char>,
    s1: Seq<char>,
    e1: Seq<char>,
    v1: Seq<char>,
    t2: Seq<char>,
    c2: Seq<char>,
    s2: Seq<char>,
    e2: Seq<char>,
    v2: Seq<char>,
)
    requires
        t1 == t2,
        c1 == c2,
        s1 == s2,
        e1 == e2,
        v1 == v2,
    ensures
        spec_record_uuid(t1, c1, s1, e1, v1) == spec_record_uuid(t2, c2, s2, e2, v2),
{
}

/// Hexadecimal writing doubles the length.
pub proof fn lemma_hex_len(b: Seq<u8>)
    ensures
        spec_hex_of_bytes(b).len() == 2 * b.len(),
    decreases b.len(),
{
    if b.len() > 0 {
        lemma_hex_len(b.drop_first());
    }
}

} // verus!
