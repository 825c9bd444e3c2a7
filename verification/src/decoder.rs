use vstd::prelude::*;

use crate::element::{Contents, Element, ValueModel, contents_model, value_model, elems_model,
    entries_model};

verus! {

/// The structural expectation a malformed buffer violated.
#[derive(Debug, Clone, Copy, PartialEq, Eq)]
pub enum FmtError {
    Dictionary,
    Integer,
    List,
    WrongCharacter,
    NumberNotInUtf8,
    FailedToParseInteger,
    WrongKeyFormat,
    UnexpectedEndOfBuffer,
}

/// Outcome of decoding one token at a cursor position: a value and the
/// position after it, an end-of-container marker and the position after
/// it, or an error.
pub enum DecodeStep {
    Value(ValueModel, int),
    End(int),
    Fail(FmtError),
}

/// Outcome of decoding the run of elements of a list, up to and past its
/// closing marker.
pub enum ListStep {
    Done(Seq<ValueModel>, int),
    Fail(FmtError),
}

/// Outcome of decoding the run of entries of a dictionary, up to and past
/// its closing marker.
pub enum DictStep {
    Done(Seq<(Seq<char>, ValueModel)>, int),
    Fail(FmtError),
}

pub open spec fn is_digit(b: u8) -> bool {
    48 <= b <= 57
}

pub open spec fn all_digits(s: Seq<u8>) -> bool {
    forall|i: int| 0 <= i < s.len() ==> is_digit(#[trigger] s[i])
}

/// The value of a run of decimal digit bytes, most significant first.
pub open spec fn digits_value(s: Seq<u8>) -> int
    decreases s.len(),
{
    if s.len() == 0 {
        0
    } else {
        digits_value(s.drop_last()) * 10 + (s.last() - 48)
    }
}

/// Whether `parse::<i32>` accepts these bytes: an optional sign, then at
/// least one digit.  (Any byte outside that shape, non-ASCII ones
/// included, makes the parse fail.)
pub open spec fn is_int_literal(s: Seq<u8>) -> bool {
    if s.len() > 0 && (s[0] == 43 || s[0] == 45) {
        s.len() > 1 && all_digits(s.skip(1))
    } else {
        s.len() > 0 && all_digits(s)
    }
}

/// The signed value of an accepted integer literal.
pub open spec fn int_literal_value(s: Seq<u8>) -> int {
    if s.len() > 0 && s[0] == 45 {
        -digits_value(s.skip(1))
    } else if s.len() > 0 && s[0] == 43 {
        digits_value(s.skip(1))
    } else {
        digits_value(s)
    }
}

/// Whether `parse::<usize>` accepts these bytes: an optional `+`, then at
/// least one digit.
pub open spec fn is_uint_literal(s: Seq<u8>) -> bool {
    if s.len() > 0 && s[0] == 43 {
        s.len() > 1 && all_digits(s.skip(1))
    } else {
        s.len() > 0 && all_digits(s)
    }
}

/// The value of an accepted unsigned integer literal.
pub open spec fn uint_literal_value(s: Seq<u8>) -> int {
    if s.len() > 0 && s[0] == 43 {
        digits_value(s.skip(1))
    } else {
        digits_value(s)
    }
}

pub open spec fn parses_as_i32(s: Seq<u8>) -> bool {
    is_int_literal(s) && i32::MIN <= int_literal_value(s) <= i32::MAX
}

pub open spec fn parses_as_usize(s: Seq<u8>) -> bool {
    is_uint_literal(s) && uint_literal_value(s) <= usize::MAX
}

/// The smallest position at or after `from` holding byte `b`, or -1 when
/// there is none before the end of the buffer.
pub open spec fn find_byte(s: Seq<u8>, from: int, b: u8) -> int
    decreases s.len() - from,
{
    if !(0 <= from < s.len()) {
        -1
    } else if s[from] == b {
        from
    } else {
        find_byte(s, from + 1, b)
    }
}

/// Decoding an integer token `i<digits>e` whose cursor stands on the `i`.
pub open spec fn decode_int_at(s: Seq<u8>, i: int) -> DecodeStep {
    if !(0 <= i < s.len()) {
        DecodeStep::Fail(FmtError::UnexpectedEndOfBuffer)
    } else if s[i] != 105 {
        DecodeStep::Fail(FmtError::Integer)
    } else {
        let k = find_byte(s, i + 1, 101);
        if k < 0 {
            DecodeStep::Fail(FmtError::UnexpectedEndOfBuffer)
        } else {
            let digits = s.subrange(i + 1, k);
            if parses_as_i32(digits) {
                DecodeStep::Value(ValueModel::Int(int_literal_value(digits)), k + 1)
            } else {
                DecodeStep::Fail(FmtError::FailedToParseInteger)
            }
        }
    }
}

/// Decoding a byte-string token `<length>:<bytes>` whose cursor stands on
/// the first length byte.  The contents become text when they are valid
/// UTF-8 and opaque bytes otherwise.
pub open spec fn decode_str_at(s: Seq<u8>, i: int) -> DecodeStep {
    if !(0 <= i <= s.len()) {
        DecodeStep::Fail(FmtError::UnexpectedEndOfBuffer)
    } else {
        let k = find_byte(s, i, 58);
        if k < 0 {
            DecodeStep::Fail(FmtError::UnexpectedEndOfBuffer)
        } else {
            let lenb = s.subrange(i, k);
            if !vstd::utf8::valid_utf8(lenb) {
                DecodeStep::Fail(FmtError::NumberNotInUtf8)
            } else if !parses_as_usize(lenb) {
                DecodeStep::Fail(FmtError::FailedToParseInteger)
            } else {
                let n = uint_literal_value(lenb);
                if k + 1 + n > s.len() {
                    DecodeStep::Fail(FmtError::UnexpectedEndOfBuffer)
                } else {
                    let c = s.subrange(k + 1, k + 1 + n);
                    if vstd::utf8::valid_utf8(c) {
                        DecodeStep::Value(ValueModel::Str(vstd::utf8::decode_utf8(c)), k + 1 + n)
                    } else {
                        DecodeStep::Value(ValueModel::Bytes(c), k + 1 + n)
                    }
                }
            }
        }
    }
}

/// Inserting into a dictionary: an existing key keeps its place and takes
/// the new value, a new key is appended.
pub open spec fn key_index(entries: Seq<(Seq<char>, ValueModel)>, k: Seq<char>) -> int
    decreases entries.len(),
{
    if entries.len() == 0 {
        -1
    } else if entries[0].0 == k {
        0
    } else {
        let r = key_index(entries.drop_first(), k);
        if r < 0 {
            -1
        } else {
            r + 1
        }
    }
}

pub open spec fn dict_insert(
    entries: Seq<(Seq<char>, ValueModel)>,
    k: Seq<char>,
    v: ValueModel,
) -> Seq<(Seq<char>, ValueModel)> {
    let i = key_index(entries, k);
    if i >= 0 {
        entries.update(i, (k, v))
    } else {
        entries.push((k, v))
    }
}

/// `key_index` is the first position holding the key, or -1 when no
/// position does.
pub proof fn lemma_key_index(entries: Seq<(Seq<char>, ValueModel)>, k: Seq<char>)
    ensures
        key_index(entries, k) == -1 ==> forall|i: int|
            0 <= i < entries.len() ==> (#[trigger] entries[i]).0 != k,
        key_index(entries, k) >= 0 ==> {
            let r = key_index(entries, k);
            &&& 0 <= r < entries.len()
            &&& entries[r].0 == k
            &&& forall|i: int| 0 <= i < r ==> (#[trigger] entries[i]).0 != k
        },
    decreases entries.len(),
{
    if entries.len() > 0 && entries[0].0 != k {
        lemma_key_index(entries.drop_first(), k);
        assert(forall|i: int|
            1 <= i < entries.len() ==> #[trigger] entries[i] == entries.drop_first()[i - 1]);
    }
}

/// Decoding a value at position `i`: dispatch on the byte there.
pub open spec fn decode_at(s: Seq<u8>, i: int) -> DecodeStep
    decreases s.len() - i, 1int,
{
    if !(0 <= i < s.len()) {
        DecodeStep::Fail(FmtError::UnexpectedEndOfBuffer)
    } else if s[i] == 100 {
        decode_dict_at(s, i)
    } else if s[i] == 108 {
        decode_list_at(s, i)
    } else if s[i] == 105 {
        decode_int_at(s, i)
    } else if is_digit(s[i]) {
        decode_str_at(s, i)
    } else if s[i] == 101 {
        DecodeStep::End(i + 1)
    } else {
        DecodeStep::Fail(FmtError::WrongCharacter)
    }
}

/// Decoding a dictionary whose cursor stands on the `d`.
pub open spec fn decode_dict_at(s: Seq<u8>, i: int) -> DecodeStep
    decreases s.len() - i, 0int,
{
    if !(0 <= i < s.len()) {
        DecodeStep::Fail(FmtError::UnexpectedEndOfBuffer)
    } else if s[i] != 100 {
        DecodeStep::Fail(FmtError::Dictionary)
    } else {
        match decode_dict_items(s, i + 1, Seq::empty()) {
            DictStep::Done(entries, j) => DecodeStep::Value(ValueModel::Dict(entries), j),
            DictStep::Fail(e) => DecodeStep::Fail(e),
        }
    }
}

/// Decoding a list whose cursor stands on the `l`.
pub open spec fn decode_list_at(s: Seq<u8>, i: int) -> DecodeStep
    decreases s.len() - i, 0int,
{
    if !(0 <= i < s.len()) {
        DecodeStep::Fail(FmtError::UnexpectedEndOfBuffer)
    } else if s[i] != 108 {
        DecodeStep::Fail(FmtError::List)
    } else {
        match decode_list_items(s, i + 1, Seq::empty()) {
            ListStep::Done(items, j) => DecodeStep::Value(ValueModel::List(items), j),
            ListStep::Fail(e) => DecodeStep::Fail(e),
        }
    }
}

/// Decoding list elements from position `i` until the end marker,
/// appending each to `acc` in encounter order.
pub open spec fn decode_list_items(s: Seq<u8>, i: int, acc: Seq<ValueModel>) -> ListStep
    decreases s.len() - i, 2int,
{
    match decode_at(s, i) {
        DecodeStep::End(j) => ListStep::Done(acc, j),
        DecodeStep::Fail(e) => ListStep::Fail(e),
        DecodeStep::Value(v, j) => {
            if i < j <= s.len() {
                decode_list_items(s, j, acc.push(v))
            } else {
                ListStep::Fail(FmtError::UnexpectedEndOfBuffer)
            }
        },
    }
}

/// Decoding dictionary entries from position `i` until the end marker.
/// Each key must be a textual byte string; its value follows at once.
pub open spec fn decode_dict_items(
    s: Seq<u8>,
    i: int,
    acc: Seq<(Seq<char>, ValueModel)>,
) -> DictStep
    decreases s.len() - i, 2int,
{
    match decode_at(s, i) {
        DecodeStep::End(j) => DictStep::Done(acc, j),
        DecodeStep::Fail(e) => DictStep::Fail(e),
        DecodeStep::Value(k, j) => match k {
            ValueModel::Str(key) => {
                if i < j <= s.len() {
                    match decode_at(s, j) {
                        DecodeStep::End(_) => DictStep::Fail(FmtError::Dictionary),
                        DecodeStep::Fail(e) => DictStep::Fail(e),
                        DecodeStep::Value(v, m) => {
                            if j < m <= s.len() {
                                decode_dict_items(s, m, dict_insert(acc, key, v))
                            } else {
                                DictStep::Fail(FmtError::UnexpectedEndOfBuffer)
                            }
                        },
                    }
                } else {
                    DictStep::Fail(FmtError::UnexpectedEndOfBuffer)
                }
            },
            _ => DictStep::Fail(FmtError::WrongKeyFormat),
        },
    }
}

/// Post-condition of decoding one value at position `i` of buffer `s`:
/// the result and the final cursor `j` agree with `decode_at`.
pub open spec fn decode_character_post(
    s: Seq<u8>,
    i: int,
    r: Result<Option<Element>, FmtError>,
    j: int,
) -> bool {
    match decode_at(s, i) {
        DecodeStep::Value(v, m) => r matches Ok(o) && o matches Some(e) && value_model(e) == v
            && j == m && i < m <= s.len(),
        DecodeStep::End(m) => r matches Ok(o) && o is None && j == m && i < m <= s.len(),
        DecodeStep::Fail(e) => r matches Err(e2) && e2 == e,
    }
}

/// Relies on String::from_utf8: it returns Ok exactly when the bytes are
/// valid UTF-8, the string then holds their decoding, and the error hands
/// the bytes back unchanged (FromUtf8Error::into_bytes).
#[verifier::external_body]
fn bytes_to_string(v: Vec<u8>) -> (r: Result<String, Vec<u8>>)
    ensures
        r is Ok <==> vstd::utf8::valid_utf8(v@),
        r matches Ok(s) ==> s@ == vstd::utf8::decode_utf8(v@),
        r matches Err(w) ==> w@ == v@,
{
    match String::from_utf8(v) {
        Ok(s) => Ok(s),
        Err(e) => Err(e.into_bytes()),
    }
}

/// The smallest position at or after `from` holding byte `b`.
fn find_byte_from(s: &[u8], from: usize, b: u8) -> (r: Option<usize>)
    ensures
        match r {
            Some(k) => from <= k < s@.len() && find_byte(s@, from as int, b) == k as int,
            None => find_byte(s@, from as int, b) == -1,
        },
{
    let mut k = from;
    while k < s.len()
        invariant
            from <= k,
            find_byte(s@, from as int, b) == find_byte(s@, k as int, b),
        decreases s@.len() - k,
    {
        if s[k] == b {
            return Some(k);
        }
        k = k + 1;
    }
    None
}

/// A copy of the bytes in `[a, b)`.
fn copy_range(s: &[u8], a: usize, b: usize) -> (r: Vec<u8>)
    requires
        a <= b <= s@.len(),
    ensures
        r@ == s@.subrange(a as int, b as int),
{
    let mut out: Vec<u8> = Vec::new();
    let mut i = a;
    while i < b
        invariant
            a <= i <= b <= s@.len(),
            out@ == s@.subrange(a as int, i as int),
        decreases b - i,
    {
        out.push(s[i]);
        proof {
            assert(out@ =~= s@.subrange(a as int, i + 1 as int));
        }
        i = i + 1;
    }
    out
}

/// Replaces the value of an existing key in place, or appends a new entry.
fn dict_insert_entry(entries: &mut Vec<(String, Element)>, key: String, value: Element)
    ensures
        entries_model(final(entries)@) == dict_insert(
            entries_model(old(entries)@),
            key@,
            value_model(value),
        ),
{
    let ghost m0 = entries_model(old(entries)@);
    proof {
        crate::element::lemma_entries_model_index(old(entries)@);
        lemma_key_index(m0, key@);
    }
    let n = entries.len();
    let mut i: usize = 0;
    while i < n
        invariant
            i <= n == entries@.len(),
            entries@ == old(entries)@,
            m0 == entries_model(entries@),
            forall|q: int| 0 <= q < i ==> (#[trigger] entries@[q]).0@ != key@,
        decreases n - i,
    {
        if compare_key(&entries[i].0, &key) {
            proof {
                crate::element::lemma_entries_model_index(entries@);
                lemma_key_index(m0, key@);
                assert(m0[i as int].0 == key@);
                assert(forall|q: int| 0 <= q < i ==> (#[trigger] m0[q]).0 != key@);
                assert(key_index(m0, key@) == i as int);
            }
            entries[i] = (key, value);
            proof {
                crate::element::lemma_entries_model_index(entries@);
                assert(entries_model(entries@) =~= m0.update(
                    i as int,
                    (key@, value_model(value)),
                ));
            }
            return;
        }
        i = i + 1;
    }
    proof {
        crate::element::lemma_entries_model_index(entries@);
        lemma_key_index(m0, key@);
        if key_index(m0, key@) >= 0 {
            assert(entries@[key_index(m0, key@)].0@ == key@);
        }
        assert(key_index(m0, key@) == -1);
    }
    entries.push((key, value));
    proof {
        crate::element::lemma_entries_model_index(entries@);
        assert(entries_model(entries@) =~= m0.push((key@, value_model(value))));
    }
}

/// Whether two strings hold the same text.
pub(crate) fn compare_key(a: &String, b: &String) -> (r: bool)
    ensures
        r == (a@ == b@),
{
    a.eq(b)
}

/// A cursor-driven decoder over one immutably borrowed buffer.  The
/// cursor only ever advances.
pub struct TorrentDecoder<'a> {
    pub buffer: &'a [u8],
    pub index: usize,
}

impl<'a> TorrentDecoder<'a> {
    /// A decoder whose cursor stands at the start of the buffer.
    pub fn new(buffer: &'a [u8]) -> (r: Self)
        ensures
            r.buffer@ == buffer@,
            r.index == 0,
    {
        Self { buffer, index: 0 }
    }

    /// The byte under the cursor.
    pub fn get_char(&mut self) -> (r: u8)
        requires
            old(self).index < old(self).buffer@.len(),
        ensures
            *final(self) == *old(self),
            r == old(self).buffer@[old(self).index as int],
    {
        self.buffer[self.index]
    }

    /// Decodes the value that starts under the cursor, given the byte
    /// there: a container, an integer or a byte string; an end-of-
    /// container marker yields no value.
    pub fn decode_character(&mut self, character: u8) -> (r: Result<Option<Element>, FmtError>)
        requires
            old(self).index < old(self).buffer@.len(),
            character == old(self).buffer@[old(self).index as int],
        ensures
            final(self).buffer@ == old(self).buffer@,
            decode_character_post(
                old(self).buffer@,
                old(self).index as int,
                r,
                final(self).index as int,
            ),
        decreases old(self).buffer@.len() - old(self).index, 1int,
    {
        if character == 100 {
            match self.decode_dictionary() {
                Ok(e) => Ok(Some(e)),
                Err(er) => Err(er),
            }
        } else if character == 108 {
            match self.decode_list() {
                Ok(e) => Ok(Some(e)),
                Err(er) => Err(er),
            }
        } else if character == 105 {
            match self.decode_integer() {
                Ok(e) => Ok(Some(e)),
                Err(er) => Err(er),
            }
        } else if 48 <= character && character <= 57 {
            match self.decode_byte_string() {
                Ok(c) => Ok(Some(Element::ByteString(c))),
                Err(er) => Err(er),
            }
        } else if character == 101 {
            // the cursor is strictly below the buffer's length, which a
            // usize holds, so stepping past the marker cannot overflow
            let _len = self.buffer.len();
            self.index = self.index + 1;
            Ok(None)
        } else {
            Err(FmtError::WrongCharacter)
        }
    }

    /// Decodes an integer token `i<digits>e` at the cursor.
    pub fn decode_integer(&mut self) -> (r: Result<Element, FmtError>)
        ensures
            final(self).buffer@ == old(self).buffer@,
            match decode_int_at(old(self).buffer@, old(self).index as int) {
                DecodeStep::Value(v, m) => r matches Ok(e) && value_model(e) == v
                    && final(self).index == m
                    && old(self).index < m <= old(self).buffer@.len(),
                DecodeStep::Fail(e) => r matches Err(e2) && e2 == e,
                DecodeStep::End(_) => false,
            },
    {
        if self.index >= self.buffer.len() {
            return Err(FmtError::UnexpectedEndOfBuffer);
        }
        let character = self.get_char();
        if character != 105 {
            return Err(FmtError::Integer);
        }
        match find_byte_from(self.buffer, self.index + 1, 101) {
            None => Err(FmtError::UnexpectedEndOfBuffer),
            Some(k) => {
                let digits = copy_range(self.buffer, self.index + 1, k);
                match crate::numbers::parse_i32_bytes(digits.as_slice()) {
                    None => Err(FmtError::FailedToParseInteger),
                    Some(num) => {
                        self.index = k + 1;
                        Ok(Element::Int(num))
                    },
                }
            },
        }
    }

    /// Decodes a byte-string token `<length>:<bytes>` at the cursor.
    pub fn decode_byte_string(&mut self) -> (r: Result<Contents, FmtError>)
        ensures
            final(self).buffer@ == old(self).buffer@,
            match decode_str_at(old(self).buffer@, old(self).index as int) {
                DecodeStep::Value(v, m) => r matches Ok(c) && contents_model(c) == v
                    && final(self).index == m
                    && old(self).index < m <= old(self).buffer@.len(),
                DecodeStep::Fail(e) => r matches Err(e2) && e2 == e,
                DecodeStep::End(_) => false,
            },
    {
        match find_byte_from(self.buffer, self.index, 58) {
            None => Err(FmtError::UnexpectedEndOfBuffer),
            Some(k) => {
                let lenb = copy_range(self.buffer, self.index, k);
                let parsed = crate::numbers::parse_usize_bytes(lenb.as_slice());
                if bytes_to_string(lenb).is_err() {
                    return Err(FmtError::NumberNotInUtf8);
                }
                match parsed {
                    None => Err(FmtError::FailedToParseInteger),
                    Some(len) => {
                        let rest = self.buffer.len() - (k + 1);
                        if len > rest {
                            return Err(FmtError::UnexpectedEndOfBuffer);
                        }
                        let contents_bytes = copy_range(self.buffer, k + 1, k + 1 + len);
                        self.index = k + 1 + len;
                        match bytes_to_string(contents_bytes) {
                            Ok(st) => Ok(Contents::String(st)),
                            Err(bytes) => Ok(Contents::Bytes(bytes)),
                        }
                    },
                }
            },
        }
    }

    /// Decodes a list `l...e` at the cursor, elements in encounter order.
    pub fn decode_list(&mut self) -> (r: Result<Element, FmtError>)
        ensures
            final(self).buffer@ == old(self).buffer@,
            match decode_list_at(old(self).buffer@, old(self).index as int) {
                DecodeStep::Value(v, m) => r matches Ok(e) && value_model(e) == v
                    && final(self).index == m
                    && old(self).index < m <= old(self).buffer@.len(),
                DecodeStep::Fail(e) => r matches Err(e2) && e2 == e,
                DecodeStep::End(_) => false,
            },
        decreases old(self).buffer@.len() - old(self).index, 0int,
    {
        let ghost s = self.buffer@;
        let ghost i0 = self.index as int;
        if self.index >= self.buffer.len() {
            return Err(FmtError::UnexpectedEndOfBuffer);
        }
        let character = self.get_char();
        if character != 108 {
            return Err(FmtError::List);
        }
        self.index = self.index + 1;
        let mut elems: Vec<Element> = Vec::new();
        loop
            invariant
                self.buffer@ == s,
                s == old(self).buffer@,
                i0 == old(self).index as int,
                0 <= i0 < s.len(),
                i0 < self.index <= s.len(),
                s[i0] == 108,
                decode_list_items(s, i0 + 1, Seq::empty()) == decode_list_items(
                    s,
                    self.index as int,
                    elems_model(elems@),
                ),
            decreases s.len() - self.index,
        {
            if self.index >= self.buffer.len() {
                return Err(FmtError::UnexpectedEndOfBuffer);
            }
            let character = self.get_char();
            let step = self.decode_character(character);
            match step {
                Err(e) => {
                    return Err(e);
                },
                Ok(None) => {
                    return Ok(Element::List(elems));
                },
                Ok(Some(elem)) => {
                    proof {
                        let w = elems@.push(elem);
                        assert(w.drop_last() =~= elems@);
                        assert(elems_model(w) == elems_model(elems@).push(value_model(elem)));
                    }
                    elems.push(elem);
                },
            }
        }
    }

    /// Decodes a dictionary `d...e` at the cursor.  Each key must be a
    /// textual byte string; inserting an existing key replaces its value.
    pub fn decode_dictionary(&mut self) -> (r: Result<Element, FmtError>)
        ensures
            final(self).buffer@ == old(self).buffer@,
            match decode_dict_at(old(self).buffer@, old(self).index as int) {
                DecodeStep::Value(v, m) => r matches Ok(e) && value_model(e) == v
                    && final(self).index == m
                    && old(self).index < m <= old(self).buffer@.len(),
                DecodeStep::Fail(e) => r matches Err(e2) && e2 == e,
                DecodeStep::End(_) => false,
            },
        decreases old(self).buffer@.len() - old(self).index, 0int,
    {
        let ghost s = self.buffer@;
        let ghost i0 = self.index as int;
        if self.index >= self.buffer.len() {
            return Err(FmtError::UnexpectedEndOfBuffer);
        }
        let character = self.get_char();
        if character != 100 {
            return Err(FmtError::Dictionary);
        }
        self.index = self.index + 1;
        let mut entries: Vec<(String, Element)> = Vec::new();
        loop
            invariant
                self.buffer@ == s,
                s == old(self).buffer@,
                i0 == old(self).index as int,
                0 <= i0 < s.len(),
                i0 < self.index <= s.len(),
                s[i0] == 100,
                decode_dict_items(s, i0 + 1, Seq::empty()) == decode_dict_items(
                    s,
                    self.index as int,
                    entries_model(entries@),
                ),
            decreases s.len() - self.index,
        {
            if self.index >= self.buffer.len() {
                return Err(FmtError::UnexpectedEndOfBuffer);
            }
            let character = self.get_char();
            let key_step = self.decode_character(character);
            let key = match key_step {
                Err(e) => {
                    return Err(e);
                },
                Ok(None) => {
                    return Ok(Element::Dictionary(entries));
                },
                Ok(Some(key_elem)) => match key_elem {
                    Element::ByteString(c) => match c {
                        Contents::String(st) => st,
                        Contents::Bytes(_) => {
                            return Err(FmtError::WrongKeyFormat);
                        },
                    },
                    _ => {
                        return Err(FmtError::WrongKeyFormat);
                    },
                },
            };
            if self.index >= self.buffer.len() {
                return Err(FmtError::UnexpectedEndOfBuffer);
            }
            let character = self.get_char();
            let value_step = self.decode_character(character);
            match value_step {
                Err(e) => {
                    return Err(e);
                },
                Ok(None) => {
                    return Err(FmtError::Dictionary);
                },
                Ok(Some(value)) => {
                    let ghost m_before = entries_model(entries@);
                    let ghost key_snap = key@;
                    let ghost value_snap = value_model(value);
                    dict_insert_entry(&mut entries, key, value);
                    assert(entries_model(entries@) == dict_insert(m_before, key_snap, value_snap));
                },
            }
        }
    }
}

} // verus!
