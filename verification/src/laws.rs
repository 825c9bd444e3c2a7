use vstd::prelude::*;

use crate::decoder::{all_digits, decode_at, decode_character_post, decode_list_items, find_byte,
    int_literal_value, is_digit, parses_as_i32, parses_as_usize, uint_literal_value, DecodeStep,
    FmtError, ListStep};
use crate::element::{value_model, Element, ValueModel};

verus! {

/// `find_byte` lands on the first occurrence of the byte.
proof fn lemma_find_byte_first(s: Seq<u8>, from: int, b: u8, k: int)
    requires
        0 <= from <= k < s.len(),
        s[k] == b,
        forall|m: int| from <= m < k ==> s[m] != b,
    ensures
        find_byte(s, from, b) == k,
    decreases k - from,
{
    if from < k {
        lemma_find_byte_first(s, from + 1, b, k);
    }
}

/// A sequence of ASCII bytes is valid UTF-8.
proof fn lemma_ascii_valid_utf8(s: Seq<u8>)
    requires
        forall|m: int| 0 <= m < s.len() ==> (#[trigger] s[m]) < 128,
    ensures
        vstd::utf8::valid_utf8(s),
{
    assert(s.subrange(0, 0) =~= Seq::<u8>::empty());
    assert(vstd::utf8::partial_valid_utf8(s, 0));
    assert(forall|m: int|
        0 <= m < s.len() ==> vstd::utf8::is_leading_byte_width_1(#[trigger] s[m]));
    vstd::utf8::partial_valid_utf8_extend_ascii_block(s, 0, s.len() as int);
    assert(s.subrange(0, s.len() as int) =~= s);
}

/// Decoding a well-formed integer token `i<digits>e` yields exactly the
/// literal's value, and the cursor lands just past the closing `e`.
pub proof fn lemma_decode_integer_exact(s: Seq<u8>, i: int, e_pos: int)
    requires
        0 <= i,
        i + 1 <= e_pos < s.len(),
        s[i] == 105,
        s[e_pos] == 101,
        parses_as_i32(s.subrange(i + 1, e_pos)),
    ensures
        decode_at(s, i) == DecodeStep::Value(
            ValueModel::Int(int_literal_value(s.subrange(i + 1, e_pos))),
            e_pos + 1,
        ),
{
    let digits = s.subrange(i + 1, e_pos);
    assert(forall|m: int| i + 1 <= m < e_pos ==> s[m] == digits[m - (i + 1)]);
    assert forall|q: int| 0 <= q < digits.len() implies digits[q] != 101 by {
        if q > 0 || !(digits[0] == 43 || digits[0] == 45) {
            if digits.len() > 0 && (digits[0] == 43 || digits[0] == 45) {
                assert(digits.skip(1)[q - 1] == digits[q]);
                assert(is_digit(digits[q]));
            } else {
                assert(is_digit(digits[q]));
            }
        }
    }
    assert(forall|m: int| i + 1 <= m < e_pos ==> s[m] != 101);
    lemma_find_byte_first(s, i + 1, 101, e_pos);
}

/// Decoding a well-formed byte-string token `<length>:<bytes>` consumes
/// the length digits, the colon and exactly that many content bytes, and
/// yields those bytes: as text when they are valid UTF-8, as opaque
/// bytes otherwise.
pub proof fn lemma_decode_byte_string_exact(s: Seq<u8>, i: int, colon: int)
    requires
        0 <= i <= colon < s.len(),
        s[colon] == 58,
        colon > i,
        all_digits(s.subrange(i, colon)),
        colon + 1 + digits_len_value(s, i, colon) <= s.len(),
        digits_len_value(s, i, colon) <= usize::MAX,
    ensures
        ({
            let n = digits_len_value(s, i, colon);
            let c = s.subrange(colon + 1, colon + 1 + n);
            decode_at(s, i) == DecodeStep::Value(
                if vstd::utf8::valid_utf8(c) {
                    ValueModel::Str(vstd::utf8::decode_utf8(c))
                } else {
                    ValueModel::Bytes(c)
                },
                colon + 1 + n,
            )
        }),
{
    let lenb = s.subrange(i, colon);
    assert(is_digit(lenb[0]));
    assert(is_digit(s[i]));
    assert(forall|m: int| i <= m < colon ==> s[m] == lenb[m - i]);
    assert(forall|m: int| i <= m < colon ==> s[m] != 58) by {
        assert(forall|q: int| 0 <= q < lenb.len() ==> is_digit(#[trigger] lenb[q]) && lenb[q]
            != 58);
    }
    lemma_find_byte_first(s, i, 58, colon);
    assert(forall|q: int| 0 <= q < lenb.len() ==> (#[trigger] lenb[q]) < 128);
    lemma_ascii_valid_utf8(lenb);
    assert(parses_as_usize(lenb));
}

/// The length value of the digit bytes in `[i, colon)`.
pub open spec fn digits_len_value(s: Seq<u8>, i: int, colon: int) -> int {
    uint_literal_value(s.subrange(i, colon))
}

/// An empty list token `le` decodes to an empty ordered sequence, and
/// the cursor lands past the closing `e`.
pub proof fn lemma_decode_empty_list(s: Seq<u8>, i: int)
    requires
        0 <= i,
        i + 1 < s.len(),
        s[i] == 108,
        s[i + 1] == 101,
    ensures
        decode_at(s, i) == DecodeStep::Value(ValueModel::List(Seq::empty()), i + 2),
{
    assert(decode_at(s, i + 1) == DecodeStep::End(i + 2));
    assert(decode_list_items(s, i + 1, Seq::empty()) == ListStep::Done(
        Seq::<ValueModel>::empty(),
        i + 2,
    ));
}

/// An empty dictionary token `de` decodes to an empty mapping, and the
/// cursor lands past the closing `e`.
pub proof fn lemma_decode_empty_dict(s: Seq<u8>, i: int)
    requires
        0 <= i,
        i + 1 < s.len(),
        s[i] == 100,
        s[i + 1] == 101,
    ensures
        decode_at(s, i) == DecodeStep::Value(ValueModel::Dict(Seq::empty()), i + 2),
{
    assert(decode_at(s, i + 1) == DecodeStep::End(i + 2));
    assert(crate::decoder::decode_dict_items(s, i + 1, Seq::empty()) == crate::decoder::DictStep::Done(
        Seq::<(Seq<char>, ValueModel)>::empty(),
        i + 2,
    ));
}

/// List elements come out in encounter order: whatever was accumulated
/// stays, in place, at the front of the decoded list.
pub proof fn lemma_list_items_keep_order(s: Seq<u8>, i: int, acc: Seq<ValueModel>)
    ensures
        decode_list_items(s, i, acc) matches ListStep::Done(l, j) ==> l.len() >= acc.len()
            && l.take(acc.len() as int) == acc,
    decreases s.len() - i,
{
    match decode_at(s, i) {
        DecodeStep::End(_) => {
            match decode_list_items(s, i, acc) {
                ListStep::Done(l, _) => {
                    assert(l.take(acc.len() as int) =~= acc);
                },
                ListStep::Fail(_) => {},
            }
        },
        DecodeStep::Fail(_) => {},
        DecodeStep::Value(v, j) => {
            if i < j <= s.len() {
                lemma_list_items_keep_order(s, j, acc.push(v));
                match decode_list_items(s, j, acc.push(v)) {
                    ListStep::Done(l, _) => {
                        assert(l.take(acc.push(v).len() as int) == acc.push(v));
                        assert(l.take(acc.len() as int) =~= acc);
                    },
                    ListStep::Fail(_) => {},
                }
            }
        },
    }
}

/// A dictionary whose first key decodes to anything but a textual byte
/// string fails with `WrongKeyFormat`.
pub proof fn lemma_non_string_key(s: Seq<u8>, i: int)
    requires
        0 <= i < s.len(),
        s[i] == 100,
        decode_at(s, i + 1) matches DecodeStep::Value(k, j) && !(k is Str),
    ensures
        decode_at(s, i) == DecodeStep::Fail(FmtError::WrongKeyFormat),
{
}

/// Decoding is a function of the buffer and the cursor alone: two runs
/// over the same bytes from the same position yield structurally equal
/// values, equal cursors and equal errors.
pub proof fn lemma_decode_deterministic(
    s: Seq<u8>,
    i: int,
    r1: Result<Option<Element>, FmtError>,
    j1: int,
    r2: Result<Option<Element>, FmtError>,
    j2: int,
)
    requires
        decode_character_post(s, i, r1, j1),
        decode_character_post(s, i, r2, j2),
    ensures
        match (r1, r2) {
            (Ok(o1), Ok(o2)) => j1 == j2 && match (o1, o2) {
                (Some(a), Some(b)) => value_model(a) == value_model(b),
                (None, None) => true,
                _ => false,
            },
            (Err(e1), Err(e2)) => e1 == e2,
            _ => false,
        },
{
}

} // verus!
