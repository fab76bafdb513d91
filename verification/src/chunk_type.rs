//! The four-letter type code of a chunk.

use vstd::prelude::*;
use vstd::utf8::{valid_utf8, decode_utf8, encode_utf8, is_ascii_chars};
use crate::error::{Error, Failure, decode_text};
use crate::wire::copy_bytes;

verus! {

/// `b` is an upper-case ASCII letter.
pub open spec fn is_upper(b: u8) -> bool {
    65 <= b <= 90
}

/// `b` is a lower-case ASCII letter.
pub open spec fn is_lower(b: u8) -> bool {
    97 <= b <= 122
}

/// `b` is an ASCII letter.
pub open spec fn is_letter(b: u8) -> bool {
    is_upper(b) || is_lower(b)
}

/// Every byte of `s` is an ASCII letter.
pub open spec fn all_letters(s: Seq<u8>) -> bool {
    forall|i: int| 0 <= i < s.len() ==> is_letter(#[trigger] s[i])
}

/// `s` is a type code: four ASCII letters.
pub open spec fn is_type_code(s: Seq<u8>) -> bool {
    s.len() == 4 && all_letters(s)
}

/// The characters that ASCII bytes stand for.
pub open spec fn ascii_text(s: Seq<u8>) -> Seq<char> {
    Seq::new(s.len(), |i: int| s[i] as char)
}

/// What building a type code from four bytes gives: the bytes themselves
/// when all are letters; otherwise a failure that carries the bytes, as text
/// where they decode.
pub open spec fn type_code_of(b: Seq<u8>) -> Result<Seq<u8>, Failure> {
    if all_letters(b) {
        Ok(b)
    } else if valid_utf8(b) {
        Err(Failure::ChunkTypeNotAplhaBetic { string: decode_utf8(b) })
    } else {
        Err(Failure::ChunkTypeNotUtf8 { bytes: b })
    }
}

/// `c` is an ASCII letter.
pub open spec fn is_letter_char(c: char) -> bool {
    ('A' <= c && c <= 'Z') || ('a' <= c && c <= 'z')
}

/// Every character of `text` is an ASCII letter.
pub open spec fn all_letter_chars(text: Seq<char>) -> bool {
    forall|i: int| 0 <= i < text.len() ==> is_letter_char(#[trigger] text[i])
}

/// The bytes that ASCII characters are written as.
pub open spec fn ascii_bytes(text: Seq<char>) -> Seq<u8> {
    Seq::new(text.len(), |i: int| text[i] as u8)
}

/// What building a type code from text gives: any character that is no
/// ASCII letter is refused first, then any length but four.
pub open spec fn type_code_of_text(text: Seq<char>) -> Result<Seq<u8>, Failure> {
    if !all_letter_chars(text) {
        Err(Failure::ChunkTypeNotAplhaBetic { string: text })
    } else if text.len() != 4 {
        Err(Failure::ChunkTypeLenMismatch { bytes: ascii_bytes(text) })
    } else {
        Ok(ascii_bytes(text))
    }
}

/// The model of a construction's outcome.
pub open spec fn type_result(r: Result<ChunkType, Error>) -> Result<Seq<u8>, Failure> {
    match r {
        Ok(t) => Ok(t@),
        Err(e) => Err(e@),
    }
}

/// ASCII bytes are valid UTF-8 and decode to their own characters.
pub proof fn lemma_ascii_decodes(s: Seq<u8>)
    requires
        forall|i: int| 0 <= i < s.len() ==> #[trigger] s[i] < 128,
    ensures
        valid_utf8(s),
        decode_utf8(s) == ascii_text(s),
{
    broadcast use vstd::utf8::group_utf8_lib;
    let chars = ascii_text(s);
    assert(is_ascii_chars(chars)) by {
        assert forall|i: int| 0 <= i < chars.len() implies '\0' <= #[trigger] chars[i] <= '\u{7f}' by {
            assert(s[i] < 128);
        }
    }
    vstd::utf8::is_ascii_chars_encode_utf8(chars);
    assert(encode_utf8(chars) =~= s) by {
        assert forall|i: int| 0 <= i < s.len() implies encode_utf8(chars)[i] == s[i] by {
            assert(chars[i] as u8 == encode_utf8(chars)[i]);
            assert(s[i] < 128);
        }
    }
    vstd::utf8::encode_utf8_valid_utf8(chars);
    vstd::utf8::encode_utf8_decode_utf8(chars);
}

/// A text is made of ASCII letters exactly when its UTF-8 bytes are, and
/// then it has one byte for each character.
pub proof fn lemma_letters_of_text(text: Seq<char>)
    ensures
        all_letters(encode_utf8(text)) <==> all_letter_chars(text),
        all_letter_chars(text) ==> encode_utf8(text) == ascii_bytes(text),
{
    let b = encode_utf8(text);
    if all_letter_chars(text) {
        assert(is_ascii_chars(text)) by {
            assert forall|i: int| 0 <= i < text.len() implies '\0' <= #[trigger] text[i]
                <= '\u{7f}' by {
                assert(is_letter_char(text[i]));
            }
        }
        vstd::utf8::is_ascii_chars_encode_utf8(text);
        assert(b =~= ascii_bytes(text)) by {
            assert forall|i: int| 0 <= i < b.len() implies b[i] == ascii_bytes(text)[i] by {
                assert(text[i] as u8 == b[i]);
            }
        }
        assert forall|i: int| 0 <= i < b.len() implies is_letter(#[trigger] b[i]) by {
            assert(is_letter_char(text[i]));
        }
    }
    if all_letters(b) {
        assert forall|i: int| 0 <= i < b.len() implies #[trigger] b[i] < 128 by {
            assert(is_letter(b[i]));
        }
        lemma_ascii_decodes(b);
        vstd::utf8::encode_utf8_decode_utf8(text);
        assert(text == ascii_text(b));
        assert forall|i: int| 0 <= i < text.len() implies is_letter_char(#[trigger] text[i]) by {
            assert(is_letter(b[i]));
            assert(text[i] == b[i] as char);
        }
    }
}

#[derive(Debug, PartialEq)]
pub struct ChunkType {
    bytes: [u8; 4],
}

impl View for ChunkType {
    type V = Seq<u8>;

    closed spec fn view(&self) -> Seq<u8> {
        self.bytes@
    }
}

impl ChunkType {
    /// The invariant of the type: four ASCII letters.
    pub open spec fn wf(&self) -> bool {
        is_type_code(self@)
    }

    /// Builds a type code from four bytes, which must all be ASCII letters.
    pub fn try_from(array: [u8; 4]) -> (res: Result<ChunkType, Error>)
        ensures
            type_result(res) == type_code_of(array@),
            res matches Ok(t) ==> t.wf(),
    {
        if is_letter_byte(array[0]) && is_letter_byte(array[1]) && is_letter_byte(array[2])
            && is_letter_byte(array[3]) {
            Ok(ChunkType { bytes: array })
        } else {
            match decode_text(array.as_slice()) {
                Ok(string) => Err(Error::ChunkTypeNotAplhaBetic { string: string.to_owned() }),
                Err(err) => Err(Error::ChunkTypeNotUtf8 { bytes: array, err }),
            }
        }
    }

    /// Builds a type code from a slice, which must hold exactly four ASCII
    /// letters; any other length is refused before the content is looked at.
    pub fn try_from_slice(value: &[u8]) -> (res: Result<ChunkType, Error>)
        ensures
            value@.len() != 4 ==> type_result(res) == Err::<Seq<u8>, Failure>(
                Failure::ChunkTypeLenMismatch { bytes: value@ },
            ),
            value@.len() == 4 ==> type_result(res) == type_code_of(value@),
            res matches Ok(t) ==> t.wf(),
    {
        if value.len() != 4 {
            let bytes = copy_bytes(value);
            return Err(Error::ChunkTypeLenMismatch { bytes });
        }
        let array: [u8; 4] = [value[0], value[1], value[2], value[3]];
        assert(array@ =~= value@);
        ChunkType::try_from(array)
    }

    /// Builds a type code from text: every character must be an ASCII
    /// letter, and there must be four of them.
    pub fn from_str(s: &str) -> (res: Result<ChunkType, Error>)
        ensures
            type_result(res) == type_code_of_text(s@),
            res matches Ok(t) ==> t.wf(),
    {
        let bytes = s.as_bytes();
        proof {
            lemma_letters_of_text(s@);
        }
        let mut i: usize = 0;
        while i < bytes.len()
            invariant
                bytes@ == encode_utf8(s@),
                all_letters(bytes@) <==> all_letter_chars(s@),
                0 <= i <= bytes@.len(),
                forall|j: int| 0 <= j < i ==> is_letter(#[trigger] bytes@[j]),
            decreases bytes@.len() - i,
        {
            if !is_letter_byte(bytes[i]) {
                return Err(Error::ChunkTypeNotAplhaBetic { string: s.to_owned() });
            }
            i += 1;
        }
        proof {
            lemma_letters_of_text(s@);
        }
        ChunkType::try_from_slice(bytes)
    }

    /// The four bytes of the code.
    pub fn bytes(&self) -> (res: &[u8])
        ensures
            res@ == self@,
    {
        self.bytes.as_slice()
    }

    /// The four bytes of the code, as an array.
    pub fn to_array(&self) -> (res: [u8; 4])
        ensures
            res@ == self@,
    {
        self.bytes
    }

    /// Whether the chunk is critical: the first letter is upper-case.
    pub fn is_critical(&self) -> (res: bool)
        ensures
            res == is_upper(self@[0]),
    {
        is_upper_byte(self.bytes[0])
    }

    /// Whether the chunk is public: the second letter is upper-case.
    pub fn is_public(&self) -> (res: bool)
        ensures
            res == is_upper(self@[1]),
    {
        is_upper_byte(self.bytes[1])
    }

    /// Whether the reserved bit is as the format asks: the third letter is
    /// upper-case.
    pub fn is_reserved_bit_valid(&self) -> (res: bool)
        ensures
            res == is_upper(self@[2]),
    {
        is_upper_byte(self.bytes[2])
    }

    /// Whether the chunk is safe to copy: the fourth letter is lower-case.
    pub fn is_safe_to_copy(&self) -> (res: bool)
        ensures
            res == is_lower(self@[3]),
    {
        is_lower_byte(self.bytes[3])
    }

    /// Whether the code is valid: the reserved bit is as the format asks.
    pub fn is_valid(&self) -> (res: bool)
        ensures
            res == is_upper(self@[2]),
    {
        self.is_reserved_bit_valid()
    }

    /// The code as text.
    pub fn to_str(&self) -> (res: &str)
        requires
            self.wf(),
        ensures
            res@ == ascii_text(self@),
    {
        proof {
            lemma_ascii_decodes(self@);
        }
        match decode_text(self.bytes.as_slice()) {
            Ok(s) => s,
            Err(_) => "",
        }
    }

    /// The code as an owned string: its four characters. Bytes outside
    /// ASCII, which no constructor lets in, would be shown as four numbers.
    pub fn to_string(&self) -> (res: String)
        ensures
            (forall|i: int| 0 <= i < 4 ==> #[trigger] self@[i] < 128) ==> res@ == ascii_text(self@),
    {
        if self.bytes[0] < 128 && self.bytes[1] < 128 && self.bytes[2] < 128 && self.bytes[3] < 128 {
            proof {
                lemma_ascii_decodes(self@);
            }
            match decode_text(self.bytes.as_slice()) {
                Ok(s) => s.to_owned(),
                Err(_) => String::new(),
            }
        } else {
            decimal_quad(&self.bytes)
        }
    }

    /// Whether two codes hold the same bytes.
    pub fn same_as(&self, other: &ChunkType) -> (res: bool)
        ensures
            res == (self@ == other@),
    {
        let res = self.bytes[0] == other.bytes[0] && self.bytes[1] == other.bytes[1]
            && self.bytes[2] == other.bytes[2] && self.bytes[3] == other.bytes[3];
        assert(res == (self@ =~= other@));
        res
    }
}

/// Calls `format!` on four bytes: their decimal values with spaces between.
/// Nothing is claimed of the text.
#[verifier::external_body]
fn decimal_quad(bytes: &[u8; 4]) -> String {
    format!("{} {} {} {}", bytes[0], bytes[1], bytes[2], bytes[3])
}

impl std::str::FromStr for ChunkType {
    type Err = Error;

    /// Builds a type code from text, as [`ChunkType::from_str`] does.
    fn from_str(s: &str) -> (res: Result<ChunkType, Error>)
        ensures
            type_result(res) == type_code_of_text(s@),
            res matches Ok(t) ==> t.wf(),
    {
        ChunkType::from_str(s)
    }
}

impl TryFrom<[u8; 4]> for ChunkType {
    type Error = Error;

    /// Builds a type code from four bytes, as [`ChunkType::try_from`] does.
    fn try_from(array: [u8; 4]) -> (res: Result<ChunkType, Error>)
        ensures
            type_result(res) == type_code_of(array@),
            res matches Ok(t) ==> t.wf(),
    {
        ChunkType::try_from(array)
    }
}

impl vstd::std_specs::convert::TryFromSpecImpl<[u8; 4]> for ChunkType {
    open spec fn obeys_try_from_spec() -> bool {
        false
    }

    open spec fn try_from_spec(v: [u8; 4]) -> Result<ChunkType, Error> {
        arbitrary()
    }
}

/// Whether `b` is an upper-case ASCII letter.
pub fn is_upper_byte(b: u8) -> (res: bool)
    ensures
        res == is_upper(b),
{
    65 <= b && b <= 90
}

/// Whether `b` is a lower-case ASCII letter.
pub fn is_lower_byte(b: u8) -> (res: bool)
    ensures
        res == is_lower(b),
{
    97 <= b && b <= 122
}

/// Whether `b` is an ASCII letter.
pub fn is_letter_byte(b: u8) -> (res: bool)
    ensures
        res == is_letter(b),
{
    is_upper_byte(b) || is_lower_byte(b)
}

} // verus!
