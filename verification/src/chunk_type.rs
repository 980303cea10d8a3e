use vstd::prelude::*;

verus! {

use crate::codec::lemma_ascii_bytes_utf8;
use crate::codec::utf8_to_string;
use crate::error::PngError;
use vstd::string::StrSliceExecFns;

/// An ASCII uppercase letter.
pub open spec fn is_upper_byte(b: u8) -> bool {
    0x41 <= b && b <= 0x5a
}

/// An ASCII lowercase letter.
pub open spec fn is_lower_byte(b: u8) -> bool {
    0x61 <= b && b <= 0x7a
}

/// An ASCII letter.
pub open spec fn is_letter_byte(b: u8) -> bool {
    is_upper_byte(b) || is_lower_byte(b)
}

/// Exactly 4 bytes, each an ASCII letter: the shape every type code has.
pub open spec fn is_code_bytes(s: Seq<u8>) -> bool {
    s.len() == 4 && (forall|i: int| 0 <= i < 4 ==> is_letter_byte(#[trigger] s[i]))
}

/// A character that is an ASCII letter.
pub open spec fn is_letter_char(c: char) -> bool {
    (c as u32) < 0x80 && is_letter_byte(c as u8)
}

/// The 4 letter bytes that a text names, when the text is exactly 4 ASCII
/// letters; `None` for any other text.
pub open spec fn spec_text_code(s: Seq<char>) -> Option<Seq<u8>> {
    if s.len() == 4 && (forall|i: int| 0 <= i < 4 ==> is_letter_char(#[trigger] s[i])) {
        Some(Seq::new(4, |i: int| s[i] as u8))
    } else {
        None
    }
}

fn letter(b: u8) -> (r: bool)
    ensures
        r == is_letter_byte(b),
{
    (0x41 <= b && b <= 0x5a) || (0x61 <= b && b <= 0x7a)
}

fn letter_char_byte(c: char) -> (r: Option<u8>)
    ensures
        match r {
            Some(b) => is_letter_char(c) && b == c as u8,
            None => !is_letter_char(c),
        },
{
    let v = c as u32;
    if (0x41 <= v && v <= 0x5a) || (0x61 <= v && v <= 0x7a) {
        Some(v as u8)
    } else {
        None
    }
}

/// A validated 4-byte chunk type code. Each byte is an ASCII letter, and the
/// case of each byte encodes one property of the chunk it names.
#[derive(Clone, Copy, Debug)]
pub struct ChunkType {
    pub code: [u8; 4],
}

impl View for ChunkType {
    type V = Seq<u8>;

    open spec fn view(&self) -> Seq<u8> {
        self.code@
    }
}

impl ChunkType {
    /// The code holds 4 bytes, each an ASCII letter.
    pub open spec fn wf(self) -> bool {
        is_code_bytes(self@)
    }

    /// Builds a code from 4 raw bytes; fails iff any byte is not an ASCII
    /// letter.
    pub fn from_bytes(bytes: [u8; 4]) -> (r: Result<ChunkType, PngError>)
        ensures
            match r {
                Ok(t) => t.wf() && t@ == bytes@ && is_code_bytes(bytes@),
                Err(e) => e == PngError::MalformedTypeCode && !is_code_bytes(bytes@),
            },
    {
        if letter(bytes[0]) && letter(bytes[1]) && letter(bytes[2]) && letter(bytes[3]) {
            assert(forall|i: int| 0 <= i < 4 ==> is_letter_byte(#[trigger] bytes@[i]));
            Ok(ChunkType { code: bytes })
        } else {
            Err(PngError::MalformedTypeCode)
        }
    }

    /// Builds a code from text; fails unless the text is exactly 4
    /// characters, each an ASCII letter.
    pub fn from_text(s: &str) -> (r: Result<ChunkType, PngError>)
        ensures
            match r {
                Ok(t) => t.wf() && spec_text_code(s@) == Some(t@),
                Err(e) => e == PngError::MalformedTypeCode && spec_text_code(s@) is None,
            },
    {
        if s.unicode_len() != 4 {
            return Err(PngError::MalformedTypeCode);
        }
        let c0 = s.get_char(0);
        let c1 = s.get_char(1);
        let c2 = s.get_char(2);
        let c3 = s.get_char(3);
        let b0 = match letter_char_byte(c0) {
            Some(b) => b,
            None => {
                return Err(PngError::MalformedTypeCode);
            },
        };
        let b1 = match letter_char_byte(c1) {
            Some(b) => b,
            None => {
                return Err(PngError::MalformedTypeCode);
            },
        };
        let b2 = match letter_char_byte(c2) {
            Some(b) => b,
            None => {
                return Err(PngError::MalformedTypeCode);
            },
        };
        let b3 = match letter_char_byte(c3) {
            Some(b) => b,
            None => {
                return Err(PngError::MalformedTypeCode);
            },
        };
        let t = ChunkType { code: [b0, b1, b2, b3] };
        proof {
            assert(forall|i: int| 0 <= i < 4 ==> is_letter_char(#[trigger] s@[i]));
            assert(t@ =~= Seq::new(4, |i: int| s@[i] as u8));
        }
        Ok(t)
    }

    /// The 4 raw bytes of the code, case-preserving.
    pub fn bytes(&self) -> (r: [u8; 4])
        ensures
            r@ == self@,
    {
        self.code
    }

    /// True iff byte 0 is uppercase: the chunk is critical.
    pub fn is_critical(&self) -> (r: bool)
        ensures
            r == is_upper_byte(self@[0]),
    {
        0x41 <= self.code[0] && self.code[0] <= 0x5a
    }

    /// True iff byte 1 is uppercase: the chunk is public.
    pub fn is_public(&self) -> (r: bool)
        ensures
            r == is_upper_byte(self@[1]),
    {
        0x41 <= self.code[1] && self.code[1] <= 0x5a
    }

    /// True iff byte 2 is uppercase: the reserved bit is clear, as every
    /// spec-valid code has it.
    pub fn is_reserved_bit_valid(&self) -> (r: bool)
        ensures
            r == is_upper_byte(self@[2]),
    {
        0x41 <= self.code[2] && self.code[2] <= 0x5a
    }

    /// True iff byte 3 is lowercase: the chunk is safe to copy.
    pub fn is_safe_to_copy(&self) -> (r: bool)
        ensures
            r == is_lower_byte(self@[3]),
    {
        0x61 <= self.code[3] && self.code[3] <= 0x7a
    }

    /// True iff all 4 bytes are ASCII letters and the reserved bit holds:
    /// the stricter validity asked of structural codes.
    pub fn is_valid(&self) -> (r: bool)
        ensures
            r == (is_code_bytes(self@) && is_upper_byte(self@[2])),
    {
        let ok = letter(self.code[0]) && letter(self.code[1]) && letter(self.code[2]) && letter(
            self.code[3],
        ) && 0x41 <= self.code[2] && self.code[2] <= 0x5a;
        proof {
            if ok {
                assert(forall|i: int| 0 <= i < 4 ==> is_letter_byte(#[trigger] self@[i]));
            }
        }
        ok
    }

    /// True iff the two codes hold the same 4 bytes; the match is exact and
    /// case-sensitive.
    pub fn eq_bytes(&self, other: &ChunkType) -> (r: bool)
        ensures
            r == (self@ == other@),
    {
        let r = self.code[0] == other.code[0] && self.code[1] == other.code[1] && self.code[2]
            == other.code[2] && self.code[3] == other.code[3];
        proof {
            if r {
                assert(self@ =~= other@);
            }
        }
        r
    }

    /// The exact, lossless textual rendering of the code: one character per
    /// byte, case preserved.
    pub fn to_text(&self) -> (r: String)
        requires
            self.wf(),
        ensures
            r@.len() == 4,
            forall|i: int| 0 <= i < 4 ==> r@[i] == self@[i] as char,
            spec_text_code(r@) == Some(self@),
    {
        let mut v: Vec<u8> = Vec::new();
        v.push(self.code[0]);
        v.push(self.code[1]);
        v.push(self.code[2]);
        v.push(self.code[3]);
        proof {
            assert(v@ =~= self@);
            lemma_ascii_bytes_utf8(v@);
        }
        let r = match utf8_to_string(&v) {
            Some(s) => s,
            None => {
                proof {
                    assert(false);
                }
                vstd::pervasive::unreached()
            },
        };
        proof {
            assert forall|i: int| 0 <= i < 4 implies is_letter_char(#[trigger] r@[i]) && r@[i]
                as u8 == self@[i] by {
                assert(r@[i] == self@[i] as char);
            }
            assert(spec_text_code(r@) == Some(self@)) by {
                assert(Seq::new(4, |i: int| r@[i] as u8) =~= self@);
            }
        }
        r
    }
}

} // verus!
