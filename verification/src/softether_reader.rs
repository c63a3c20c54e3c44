//! Locale-aware numeric normalization: the management tool formats its
//! counters for human display (grouped thousands, a unit word in one of
//! the display locales it supports), and these functions reverse that
//! formatting into plain numbers.

use vstd::prelude::*;
use vstd::string::StringExecFns;

use crate::text::{
    all_digits, chars_vec, dec_value, find_slash, first_slash, has_pattern, has_slash, is_count_text,
    is_digit, lemma_strip_first_at, lemma_without_commas_append,
    lemma_without_commas_id, occurs_at, parse_u64, remove_commas, strip_first, strip_unit,
    strip_unit_chars, subrange_chars, trim_chars, trimmed, without_commas,
};

verus! {

/// The error taxonomy of the whole query pipeline: one variant per kind,
/// each carrying its own diagnostic text.
#[derive(Debug)]
pub enum SoftEtherError {
    /// The external tool could not be started.
    ProcessSpawnError(String),
    /// The tool ran and exited with a failure status; the payload is the
    /// tool's own standard-output text.
    ExternalToolError(String),
    /// The tool's output could not be parsed as the expected tabular shape.
    CsvSyntaxError(String),
    /// A value expected to be numeric (or slash-paired) could not be
    /// parsed after locale-suffix stripping.
    FormatError(String),
}

impl SoftEtherError {
    pub open spec fn payload(&self) -> Seq<char> {
        match self {
            SoftEtherError::ProcessSpawnError(m) => m@,
            SoftEtherError::ExternalToolError(m) => m@,
            SoftEtherError::CsvSyntaxError(m) => m@,
            SoftEtherError::FormatError(m) => m@,
        }
    }

    /// The diagnostic text carried by the error.
    pub fn message(&self) -> (r: &str)
        ensures
            r@ == self.payload(),
    {
        match self {
            SoftEtherError::ProcessSpawnError(m) => m.as_str(),
            SoftEtherError::ExternalToolError(m) => m.as_str(),
            SoftEtherError::CsvSyntaxError(m) => m.as_str(),
            SoftEtherError::FormatError(m) => m.as_str(),
        }
    }
}

/// What remains of a "packets" counter text after removing every comma
/// and one occurrence of whichever known unit-suffix variant is present.
pub open spec fn count_stripped(s: Seq<char>) -> Seq<char> {
    strip_unit(without_commas(s), " パケット"@, " packets"@, " 数据包"@)
}

/// What remains of a "bytes" counter text after removing every comma and
/// one occurrence of whichever known unit-suffix variant is present.
pub open spec fn bytes_stripped(s: Seq<char>) -> Seq<char> {
    strip_unit(without_commas(s), " バイト"@, " bytes"@, " 字节"@)
}

/// Left half of a slash-paired text: everything before the first slash,
/// trimmed.
pub open spec fn conn_left(s: Seq<char>) -> Seq<char> {
    trimmed(s.take(first_slash(s)))
}

/// Right half of a slash-paired text: everything after the first slash,
/// trimmed.
pub open spec fn conn_right(s: Seq<char>) -> Seq<char> {
    trimmed(s.skip(first_slash(s) + 1))
}

/// A connections text decodes: either it has no slash (the defined
/// "absent" sentinel) or both halves are numerals.
pub open spec fn conn_ok(s: Seq<char>) -> bool {
    has_slash(s) ==> (is_count_text(conn_left(s)) && is_count_text(conn_right(s)))
}

pub open spec fn conn_first(s: Seq<char>) -> nat {
    if has_slash(s) {
        dec_value(conn_left(s))
    } else {
        0
    }
}

pub open spec fn conn_second(s: Seq<char>) -> nat {
    if has_slash(s) {
        dec_value(conn_right(s))
    } else {
        0
    }
}

pub struct SoftEtherReader;

impl SoftEtherReader {
    /// Decode a "packets" counter: remove thousands-separator commas,
    /// remove exactly one occurrence of any of the three known locale
    /// unit-suffix variants, then parse the remainder as a decimal number.
    pub fn decode_packets(src: &str) -> (r: Result<u64, SoftEtherError>)
        ensures
            is_count_text(count_stripped(src@)) ==> (r matches Ok(v) && v as nat == dec_value(
                count_stripped(src@),
            )),
            !is_count_text(count_stripped(src@)) ==> (r matches Err(e) && e is FormatError),
    {
        let cs = chars_vec(src);
        let nc = remove_commas(&cs);
        let v1 = chars_vec(" パケット");
        let v2 = chars_vec(" packets");
        let v3 = chars_vec(" 数据包");
        proof {
            reveal_strlit(" パケット");
            reveal_strlit(" packets");
            reveal_strlit(" 数据包");
        }
        let stripped = strip_unit_chars(&nc, &v1, &v2, &v3);
        match parse_u64(&stripped) {
            Some(v) => Ok(v),
            None => Err(format_error(src)),
        }
    }

    /// Decode a "bytes" counter, by the same strategy as
    /// `decode_packets` but against the three known "bytes" unit-suffix
    /// variants.
    pub fn decode_bytes(src: &str) -> (r: Result<u64, SoftEtherError>)
        ensures
            is_count_text(bytes_stripped(src@)) ==> (r matches Ok(v) && v as nat == dec_value(
                bytes_stripped(src@),
            )),
            !is_count_text(bytes_stripped(src@)) ==> (r matches Err(e) && e is FormatError),
    {
        let cs = chars_vec(src);
        let nc = remove_commas(&cs);
        let v1 = chars_vec(" バイト");
        let v2 = chars_vec(" bytes");
        let v3 = chars_vec(" 字节");
        proof {
            reveal_strlit(" バイト");
            reveal_strlit(" bytes");
            reveal_strlit(" 字节");
        }
        let stripped = strip_unit_chars(&nc, &v1, &v2, &v3);
        match parse_u64(&stripped) {
            Some(v) => Ok(v),
            None => Err(format_error(src)),
        }
    }

    /// Decode a "current/maximum" connections pair. A text without a
    /// slash is the defined "absent" sentinel `(0, 0)`, not an error;
    /// otherwise both halves of the first slash are trimmed and parsed
    /// independently.
    pub fn decode_connections(src: &str) -> (r: Result<(u64, u64), SoftEtherError>)
        ensures
            conn_ok(src@) ==> (r matches Ok(p) && p.0 as nat == conn_first(src@) && p.1 as nat
                == conn_second(src@)),
            !conn_ok(src@) ==> (r matches Err(e) && e is FormatError),
    {
        let cs = chars_vec(src);
        match find_slash(&cs) {
            None => Ok((0, 0)),
            Some(k) => {
                let n = cs.len();
                let left = subrange_chars(&cs, 0, k);
                let right = subrange_chars(&cs, k + 1, n);
                proof {
                    assert(cs@.subrange(0, k as int) =~= cs@.take(first_slash(src@)));
                    assert(cs@.subrange(k + 1, cs@.len() as int) =~= cs@.skip(
                        first_slash(src@) + 1,
                    ));
                }
                let lt = trim_chars(&left);
                let rt = trim_chars(&right);
                match parse_u64(&lt) {
                    None => Err(format_error(src)),
                    Some(a) => match parse_u64(&rt) {
                        None => Err(format_error(src)),
                        Some(b) => Ok((a, b)),
                    },
                }
            },
        }
    }
}

/// A `FormatError` naming the text that failed to decode.
fn format_error(src: &str) -> (r: SoftEtherError)
    ensures
        r is FormatError,
{
    let mut m = String::from_str("could not decode numeric value: ");
    m.append(src);
    SoftEtherError::FormatError(m)
}

/// No unit-suffix variant (which begins with a space) occurs in a pure
/// digit string.
proof fn lemma_digits_no_pattern(digits: Seq<char>, v: Seq<char>)
    requires
        all_digits(digits),
        v.len() >= 1,
        v[0] == ' ',
    ensures
        !has_pattern(digits, v),
{
    assert forall|j: int| !occurs_at(digits, v, j) by {
        if occurs_at(digits, v, j) {
            assert(digits.subrange(j, j + v.len())[0] == digits[j]);
            assert(digits[j] == ' ');
            assert(is_digit(digits[j]));
        }
    }
}

/// Appending a unit-suffix variant to a pure digit string creates exactly
/// one occurrence of it, at the boundary, and stripping it restores the
/// digit string.
proof fn lemma_digits_suffix_strip(digits: Seq<char>, v: Seq<char>)
    requires
        all_digits(digits),
        v.len() >= 1,
        v[0] == ' ',
    ensures
        has_pattern(digits + v, v),
        strip_first(digits + v, v) == digits,
{
    let s = digits + v;
    let dl = digits.len() as int;
    assert(occurs_at(s, v, dl)) by {
        assert(s.subrange(dl, dl + v.len()) =~= v);
    }
    assert forall|j: int| 0 <= j < dl implies !occurs_at(s, v, j) by {
        if occurs_at(s, v, j) {
            assert(s.subrange(j, j + v.len())[0] == s[j]);
            assert(s[j] == ' ');
            assert(s[j] == digits[j]);
            assert(is_digit(digits[j]));
        }
    }
    lemma_strip_first_at(s, v, dl);
    assert(s.take(dl) + s.skip(dl + v.len()) =~= digits);
}

/// A different unit-suffix variant does not occur in a digit string
/// followed by suffix `v`, provided the two variants differ right after
/// their leading space.
proof fn lemma_digits_suffix_no_cross(digits: Seq<char>, v: Seq<char>, w: Seq<char>)
    requires
        all_digits(digits),
        v.len() >= 2,
        w.len() >= 2,
        v[0] == ' ',
        w[0] == ' ',
        forall|i: int| 1 <= i < v.len() ==> v[i] != ' ',
        v[1] != w[1],
    ensures
        !has_pattern(digits + v, w),
{
    let s = digits + v;
    let dl = digits.len() as int;
    assert forall|j: int| !occurs_at(s, w, j) by {
        if occurs_at(s, w, j) {
            assert(s.subrange(j, j + w.len())[0] == s[j]);
            assert(s[j] == ' ');
            if j < dl {
                assert(s[j] == digits[j]);
                assert(is_digit(digits[j]));
            } else if j > dl {
                assert(s[j] == v[j - dl]);
            } else {
                assert(s.subrange(j, j + w.len())[1] == s[j + 1]);
                assert(s[dl + 1] == v[1]);
            }
        }
    }
}

/// Core of the locale-equivalence law: against a variant triple whose
/// members all begin with a space, contain no further space, and differ
/// in their second character, stripping behaves the same whichever
/// variant follows the digits, and leaves plain digits alone.
proof fn lemma_unit_variants(digits: Seq<char>, v1: Seq<char>, v2: Seq<char>, v3: Seq<char>)
    requires
        all_digits(digits),
        v1.len() >= 2,
        v2.len() >= 2,
        v3.len() >= 2,
        v1[0] == ' ',
        v2[0] == ' ',
        v3[0] == ' ',
        forall|i: int| 1 <= i < v1.len() ==> v1[i] != ' ',
        forall|i: int| 1 <= i < v2.len() ==> v2[i] != ' ',
        forall|i: int| 1 <= i < v3.len() ==> v3[i] != ' ',
        v1[1] != v2[1],
        v1[1] != v3[1],
        v2[1] != v3[1],
    ensures
        strip_unit(digits + v1, v1, v2, v3) == digits,
        strip_unit(digits + v2, v1, v2, v3) == digits,
        strip_unit(digits + v3, v1, v2, v3) == digits,
        strip_unit(digits, v1, v2, v3) == digits,
{
    lemma_digits_suffix_strip(digits, v1);
    lemma_digits_suffix_no_cross(digits, v2, v1);
    lemma_digits_suffix_strip(digits, v2);
    lemma_digits_suffix_no_cross(digits, v3, v1);
    lemma_digits_suffix_no_cross(digits, v3, v2);
    lemma_digits_suffix_strip(digits, v3);
    lemma_digits_no_pattern(digits, v1);
    lemma_digits_no_pattern(digits, v2);
    lemma_digits_no_pattern(digits, v3);
}

/// Every character of a digits-and-commas text that survives comma
/// removal is a digit.
proof fn lemma_without_commas_digits(text: Seq<char>)
    requires
        forall|i: int| 0 <= i < text.len() ==> is_digit(#[trigger] text[i]) || text[i] == ',',
    ensures
        all_digits(without_commas(text)),
    decreases text.len(),
{
    if text.len() > 0 {
        lemma_without_commas_digits(text.drop_last());
    }
}

/// Law: `decode_packets` strips its three known locale unit-suffix
/// variants and thousands separators identically. For any text of digits
/// and separator commas, appending any one of the three variants (or
/// none) leaves the same bare digit string after stripping, so all four
/// spellings decode to the same value.
pub proof fn lemma_count_suffixes_equivalent(text: Seq<char>)
    requires
        forall|i: int| 0 <= i < text.len() ==> is_digit(#[trigger] text[i]) || text[i] == ',',
    ensures
        count_stripped(text + " パケット"@) == without_commas(text),
        count_stripped(text + " packets"@) == without_commas(text),
        count_stripped(text + " 数据包"@) == without_commas(text),
        count_stripped(text) == without_commas(text),
{
    reveal_strlit(" パケット");
    reveal_strlit(" packets");
    reveal_strlit(" 数据包");
    let digits = without_commas(text);
    lemma_without_commas_digits(text);
    lemma_suffix_literal_facts();
    lemma_without_commas_append(text, " パケット"@);
    lemma_without_commas_id(" パケット"@);
    lemma_without_commas_append(text, " packets"@);
    lemma_without_commas_id(" packets"@);
    lemma_without_commas_append(text, " 数据包"@);
    lemma_without_commas_id(" 数据包"@);
    lemma_unit_variants(digits, " パケット"@, " packets"@, " 数据包"@);
}

/// Law: `decode_bytes` strips its three known locale unit-suffix
/// variants and thousands separators identically, exactly as
/// `decode_packets` does for its own variants.
pub proof fn lemma_bytes_suffixes_equivalent(text: Seq<char>)
    requires
        forall|i: int| 0 <= i < text.len() ==> is_digit(#[trigger] text[i]) || text[i] == ',',
    ensures
        bytes_stripped(text + " バイト"@) == without_commas(text),
        bytes_stripped(text + " bytes"@) == without_commas(text),
        bytes_stripped(text + " 字节"@) == without_commas(text),
        bytes_stripped(text) == without_commas(text),
{
    reveal_strlit(" バイト");
    reveal_strlit(" bytes");
    reveal_strlit(" 字节");
    let digits = without_commas(text);
    lemma_without_commas_digits(text);
    lemma_suffix_literal_facts();
    lemma_without_commas_append(text, " バイト"@);
    lemma_without_commas_id(" バイト"@);
    lemma_without_commas_append(text, " bytes"@);
    lemma_without_commas_id(" bytes"@);
    lemma_without_commas_append(text, " 字节"@);
    lemma_without_commas_id(" 字节"@);
    lemma_unit_variants(digits, " バイト"@, " bytes"@, " 字节"@);
}

/// Character-level facts about the six unit-suffix literals: each starts
/// with a space, contains no other space and no comma, and the variants
/// of a triple differ right after the space.
proof fn lemma_suffix_literal_facts()
    ensures
        (" パケット"@).len() == 5 && (" パケット"@)[0] == ' ',
        forall|i: int| 1 <= i < (" パケット"@).len() ==> (" パケット"@)[i] != ' ',
        forall|i: int| 0 <= i < (" パケット"@).len() ==> (" パケット"@)[i] != ',',
        (" packets"@).len() == 8 && (" packets"@)[0] == ' ',
        forall|i: int| 1 <= i < (" packets"@).len() ==> (" packets"@)[i] != ' ',
        forall|i: int| 0 <= i < (" packets"@).len() ==> (" packets"@)[i] != ',',
        (" 数据包"@).len() == 4 && (" 数据包"@)[0] == ' ',
        forall|i: int| 1 <= i < (" 数据包"@).len() ==> (" 数据包"@)[i] != ' ',
        forall|i: int| 0 <= i < (" 数据包"@).len() ==> (" 数据包"@)[i] != ',',
        (" パケット"@)[1] != (" packets"@)[1],
        (" パケット"@)[1] != (" 数据包"@)[1],
        (" packets"@)[1] != (" 数据包"@)[1],
        (" バイト"@).len() == 4 && (" バイト"@)[0] == ' ',
        forall|i: int| 1 <= i < (" バイト"@).len() ==> (" バイト"@)[i] != ' ',
        forall|i: int| 0 <= i < (" バイト"@).len() ==> (" バイト"@)[i] != ',',
        (" bytes"@).len() == 6 && (" bytes"@)[0] == ' ',
        forall|i: int| 1 <= i < (" bytes"@).len() ==> (" bytes"@)[i] != ' ',
        forall|i: int| 0 <= i < (" bytes"@).len() ==> (" bytes"@)[i] != ',',
        (" 字节"@).len() == 3 && (" 字节"@)[0] == ' ',
        forall|i: int| 1 <= i < (" 字节"@).len() ==> (" 字节"@)[i] != ' ',
        forall|i: int| 0 <= i < (" 字节"@).len() ==> (" 字节"@)[i] != ',',
        (" バイト"@)[1] != (" bytes"@)[1],
        (" バイト"@)[1] != (" 字节"@)[1],
        (" bytes"@)[1] != (" 字节"@)[1],
{
    reveal_strlit(" パケット");
    reveal_strlit(" packets");
    reveal_strlit(" 数据包");
    reveal_strlit(" バイト");
    reveal_strlit(" bytes");
    reveal_strlit(" 字节");
}

} // verus!
