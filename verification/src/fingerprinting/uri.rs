//! A signature as text: a prefix and the payload in hexadecimal digits, two for each
//! byte, the high one first, with capital letters.

use vstd::prelude::*;
use vstd::string::StringExecFns;
use vstd::string::StrSliceExecFns;
use crate::fingerprinting::codec::{
    is_payload, lemma_round_trip, read_u32, records_start, signature_of, DecodeError,
    EncodeError, FORMAT_TAG, HEADER_SIZE,
};
use crate::fingerprinting::signature_format::{DecodedSignature, SignatureModel, BAND_COUNT};

verus! {

/// Characters in the prefix.
pub const URI_PREFIX_LEN: usize = 36;

/// The prefix that opens a signature written as text.
pub open spec fn uri_prefix() -> Seq<char> {
    "data:application/x-signature;base16,"@
}

/// The digit of a number below sixteen.
pub open spec fn hex_digit(nibble: u8) -> char {
    if nibble < 10 {
        (48 + nibble) as char
    } else {
        (55 + nibble) as char
    }
}

/// The number that a digit stands for, if the character is a digit.
pub open spec fn digit_value(c: char) -> Option<u8> {
    if '0' <= c <= '9' {
        Some((c as u8 - 48) as u8)
    } else if 'A' <= c <= 'F' {
        Some((c as u8 - 55) as u8)
    } else {
        None
    }
}

/// Bytes in digits: two for each byte, the high one first.
pub open spec fn hex_text(bytes: Seq<u8>) -> Seq<char> {
    Seq::new(
        2 * bytes.len(),
        |i: int|
            if i % 2 == 0 {
                hex_digit(bytes[i / 2] / 16)
            } else {
                hex_digit(bytes[i / 2] % 16)
            },
    )
}

/// Whether a text is an even number of digits.
pub open spec fn is_hex_text(text: Seq<char>) -> bool {
    &&& text.len() % 2 == 0
    &&& forall|i: int| 0 <= i < text.len() ==> digit_value(#[trigger] text[i]) is Some
}

/// The bytes that a text of digits stands for.
pub open spec fn bytes_of_hex(text: Seq<char>) -> Seq<u8> {
    Seq::new(
        text.len() / 2,
        |i: int|
            (16 * digit_value(text[2 * i]).unwrap() + digit_value(text[2 * i + 1]).unwrap()) as u8,
    )
}

/// Whether a text opens with the prefix.
pub open spec fn has_prefix(text: Seq<char>) -> bool {
    text.len() >= URI_PREFIX_LEN && text.subrange(0, URI_PREFIX_LEN as int) == uri_prefix()
}

/// What stands behind the prefix.
pub open spec fn body_of(text: Seq<char>) -> Seq<char> {
    text.subrange(URI_PREFIX_LEN as int, text.len() as int)
}

impl SignatureModel {
    /// The signature as text.
    pub open spec fn uri(self) -> Seq<char> {
        uri_prefix() + hex_text(self.payload())
    }
}

/// A digit stands for the number it was made of.
pub proof fn lemma_digit_round_trip(nibble: u8)
    requires
        nibble < 16,
    ensures
        digit_value(hex_digit(nibble)) == Some(nibble),
{
}

/// Digits made of bytes are a text of digits and stand for those bytes.
pub proof fn lemma_hex_round_trip(bytes: Seq<u8>)
    ensures
        is_hex_text(hex_text(bytes)),
        bytes_of_hex(hex_text(bytes)) == bytes,
{
    let text = hex_text(bytes);
    assert forall|i: int| 0 <= i < text.len() implies digit_value(#[trigger] text[i]) is Some by {
        lemma_digit_round_trip(bytes[i / 2] / 16);
        lemma_digit_round_trip(bytes[i / 2] % 16);
    }
    assert forall|i: int| 0 <= i < bytes.len() implies bytes_of_hex(text)[i] == bytes[i] by {
        lemma_digit_round_trip(bytes[i] / 16);
        lemma_digit_round_trip(bytes[i] % 16);
        assert(text[2 * i] == hex_digit(bytes[i] / 16));
        assert(text[2 * i + 1] == hex_digit(bytes[i] % 16));
    }
    assert(bytes_of_hex(text) =~= bytes);
}

/// The prefix is 36 characters long.
pub proof fn lemma_prefix_len()
    ensures
        uri_prefix().len() == URI_PREFIX_LEN,
{
    reveal_strlit("data:application/x-signature;base16,");
}

/// Round trip through text: the text of a signature opens with the prefix, holds
/// digits behind it, and the signature read from it is the signature that was written.
pub proof fn lemma_uri_round_trip(signature: SignatureModel)
    requires
        signature.wf(),
        signature.encodable(),
    ensures
        has_prefix(signature.uri()),
        is_hex_text(body_of(signature.uri())),
        is_payload(bytes_of_hex(body_of(signature.uri()))),
        signature_of(bytes_of_hex(body_of(signature.uri()))) == signature,
{
    lemma_prefix_len();
    let text = signature.uri();
    assert(text.subrange(0, URI_PREFIX_LEN as int) =~= uri_prefix());
    assert(body_of(text) =~= hex_text(signature.payload()));
    lemma_hex_round_trip(signature.payload());
    lemma_round_trip(signature);
}

/// The digit of a number below sixteen, as a text of one character.
fn digit_text(nibble: u8) -> (text: &'static str)
    requires
        nibble < 16,
    ensures
        text@ == seq![hex_digit(nibble)],
{
    if nibble == 0 {
        proof {
            reveal_strlit("0");
        }
        let digit = "0";
        assert(digit@ =~= seq![hex_digit(nibble)]);
        digit
    } else if nibble == 1 {
        proof {
            reveal_strlit("1");
        }
        let digit = "1";
        assert(digit@ =~= seq![hex_digit(nibble)]);
        digit
    } else if nibble == 2 {
        proof {
            reveal_strlit("2");
        }
        let digit = "2";
        assert(digit@ =~= seq![hex_digit(nibble)]);
        digit
    } else if nibble == 3 {
        proof {
            reveal_strlit("3");
        }
        let digit = "3";
        assert(digit@ =~= seq![hex_digit(nibble)]);
        digit
    } else if nibble == 4 {
        proof {
            reveal_strlit("4");
        }
        let digit = "4";
        assert(digit@ =~= seq![hex_digit(nibble)]);
        digit
    } else if nibble == 5 {
        proof {
            reveal_strlit("5");
        }
        let digit = "5";
        assert(digit@ =~= seq![hex_digit(nibble)]);
        digit
    } else if nibble == 6 {
        proof {
            reveal_strlit("6");
        }
        let digit = "6";
        assert(digit@ =~= seq![hex_digit(nibble)]);
        digit
    } else if nibble == 7 {
        proof {
            reveal_strlit("7");
        }
        let digit = "7";
        assert(digit@ =~= seq![hex_digit(nibble)]);
        digit
    } else if nibble == 8 {
        proof {
            reveal_strlit("8");
        }
        let digit = "8";
        assert(digit@ =~= seq![hex_digit(nibble)]);
        digit
    } else if nibble == 9 {
        proof {
            reveal_strlit("9");
        }
        let digit = "9";
        assert(digit@ =~= seq![hex_digit(nibble)]);
        digit
    } else if nibble == 10 {
        proof {
            reveal_strlit("A");
        }
        let digit = "A";
        assert(digit@ =~= seq![hex_digit(nibble)]);
        digit
    } else if nibble == 11 {
        proof {
            reveal_strlit("B");
        }
        let digit = "B";
        assert(digit@ =~= seq![hex_digit(nibble)]);
        digit
    } else if nibble == 12 {
        proof {
            reveal_strlit("C");
        }
        let digit = "C";
        assert(digit@ =~= seq![hex_digit(nibble)]);
        digit
    } else if nibble == 13 {
        proof {
            reveal_strlit("D");
        }
        let digit = "D";
        assert(digit@ =~= seq![hex_digit(nibble)]);
        digit
    } else if nibble == 14 {
        proof {
            reveal_strlit("E");
        }
        let digit = "E";
        assert(digit@ =~= seq![hex_digit(nibble)]);
        digit
    } else {
        proof {
            reveal_strlit("F");
        }
        let digit = "F";
        assert(digit@ =~= seq![hex_digit(nibble)]);
        digit
    }
}

/// The number that a digit stands for, if the byte is the code of a digit.
fn hex_value(code: u8) -> (value: Option<u8>)
    ensures
        value == digit_value(code as char),
{
    if 48 <= code && code <= 57 {
        Some(code - 48)
    } else if 65 <= code && code <= 70 {
        Some(code - 55)
    } else {
        None
    }
}

impl DecodedSignature {
    /// Writes the signature as text. Only a signature with more than 2^32 - 1 peaks in
    /// one band has none.
    pub fn encode_to_uri(&self) -> (result: Result<String, EncodeError>)
        ensures
            match result {
                Ok(text) => self@.encodable() && text@ == self@.uri(),
                Err(error) => !self@.encodable() && error == EncodeError::TooManyPeaks,
            },
    {
        let bytes = match self.encode_to_binary() {
            Ok(bytes) => bytes,
            Err(error) => {
                return Err(error);
            },
        };
        let mut text = String::from_str("data:application/x-signature;base16,");
        proof {
            lemma_prefix_len();
        }
        let mut i: usize = 0;
        while i < bytes.len()
            invariant
                i <= bytes@.len(),
                bytes@ == self@.payload(),
                uri_prefix().len() == URI_PREFIX_LEN,
                text@.len() == URI_PREFIX_LEN + 2 * i,
                text@.subrange(0, URI_PREFIX_LEN as int) == uri_prefix(),
                forall|k: int|
                    0 <= k < 2 * i ==> #[trigger] text@[URI_PREFIX_LEN + k] == hex_text(bytes@)[k],
            decreases bytes@.len() - i,
        {
            let byte: u8 = bytes[i];
            let ghost before = text@;
            text.append(digit_text(byte / 16));
            text.append(digit_text(byte % 16));
            proof {
                assert(text@ =~= before.push(hex_digit(byte / 16)).push(hex_digit(byte % 16)));
                assert(text@.subrange(0, URI_PREFIX_LEN as int) =~= before.subrange(
                    0,
                    URI_PREFIX_LEN as int,
                ));
                assert forall|k: int| 0 <= k < 2 * (i + 1) implies #[trigger] text@[URI_PREFIX_LEN
                    + k] == hex_text(bytes@)[k] by {
                    if k < 2 * i {
                        assert(text@[URI_PREFIX_LEN + k] == before[URI_PREFIX_LEN + k]);
                    }
                }
            }
            i += 1;
        }
        proof {
            let expected = self@.uri();
            assert(expected.len() == text@.len());
            assert forall|k: int| 0 <= k < text@.len() implies text@[k] == expected[k] by {
                if k < URI_PREFIX_LEN {
                    assert(text@.subrange(0, URI_PREFIX_LEN as int)[k] == text@[k]);
                } else {
                    assert(text@[URI_PREFIX_LEN + (k - URI_PREFIX_LEN)] == hex_text(bytes@)[k
                        - URI_PREFIX_LEN]);
                }
            }
            assert(text@ =~= expected);
        }
        Ok(text)
    }

    /// Reads a signature from text. It is read from exactly the texts that
    /// `encode_to_uri` writes.
    pub fn decode_from_uri(text: &str) -> (result: Result<DecodedSignature, DecodeError>)
        ensures
            match result {
                Ok(signature) => {
                    &&& has_prefix(text@)
                    &&& is_hex_text(body_of(text@))
                    &&& is_payload(bytes_of_hex(body_of(text@)))
                    &&& signature@ == signature_of(bytes_of_hex(body_of(text@)))
                },
                Err(DecodeError::BadPrefix) => !has_prefix(text@),
                Err(DecodeError::BadText) => has_prefix(text@) && !is_hex_text(body_of(text@)),
                Err(DecodeError::Truncated) => {
                    &&& has_prefix(text@)
                    &&& is_hex_text(body_of(text@))
                    &&& bytes_of_hex(body_of(text@)).len() < HEADER_SIZE
                },
                Err(DecodeError::BadTag) => {
                    &&& has_prefix(text@)
                    &&& is_hex_text(body_of(text@))
                    &&& bytes_of_hex(body_of(text@)).len() >= HEADER_SIZE
                    &&& read_u32(bytes_of_hex(body_of(text@)), 0) != FORMAT_TAG
                },
                Err(DecodeError::BadLength) => {
                    &&& has_prefix(text@)
                    &&& is_hex_text(body_of(text@))
                    &&& bytes_of_hex(body_of(text@)).len() >= HEADER_SIZE
                    &&& read_u32(bytes_of_hex(body_of(text@)), 0) == FORMAT_TAG
                    &&& bytes_of_hex(body_of(text@)).len() != records_start(
                        bytes_of_hex(body_of(text@)),
                        BAND_COUNT as int,
                    )
                },
            },
    {
        let prefix = "data:application/x-signature;base16,";
        proof {
            lemma_prefix_len();
        }
        let count: usize = text.unicode_len();
        if count < URI_PREFIX_LEN {
            return Err(DecodeError::BadPrefix);
        }
        let mut i: usize = 0;
        while i < URI_PREFIX_LEN
            invariant
                i <= URI_PREFIX_LEN,
                prefix@ == uri_prefix(),
                uri_prefix().len() == URI_PREFIX_LEN,
                text@.len() == count,
                count >= URI_PREFIX_LEN,
                forall|k: int| 0 <= k < i ==> #[trigger] text@[k] == uri_prefix()[k],
            decreases URI_PREFIX_LEN - i,
        {
            if text.get_char(i) != prefix.get_char(i) {
                proof {
                    assert(text@.subrange(0, URI_PREFIX_LEN as int)[i as int] == text@[i as int]);
                }
                return Err(DecodeError::BadPrefix);
            }
            i += 1;
        }
        assert(text@.subrange(0, URI_PREFIX_LEN as int) =~= uri_prefix());
        let ghost body = body_of(text@);
        if !text.is_ascii() {
            proof {
                lemma_prefix_is_ascii();
                let at = choose|at: int|
                    0 <= at < text@.len() && !('\0' <= #[trigger] text@[at] <= '\u{7f}');
                assert(at >= URI_PREFIX_LEN) by {
                    if at < URI_PREFIX_LEN {
                        assert(text@[at] == uri_prefix()[at]);
                    }
                }
                assert(body[at - URI_PREFIX_LEN] == text@[at]);
                assert(digit_value(body[at - URI_PREFIX_LEN]) is None);
            }
            return Err(DecodeError::BadText);
        }
        let codes = text.as_bytes();
        proof {
            vstd::string::is_ascii_spec_bytes(text);
            assert(codes@.len() == count);
            assert forall|k: int| 0 <= k < count implies (#[trigger] codes@[k]) as char == text@[k] by {
                assert('\0' <= text@[k] <= '\u{7f}');
                assert(codes@[k] == text@[k] as u8);
            }
        }
        if (count - URI_PREFIX_LEN) % 2 != 0 {
            return Err(DecodeError::BadText);
        }
        let mut payload: Vec<u8> = Vec::new();
        let mut at: usize = URI_PREFIX_LEN;
        while at < count
            invariant
                URI_PREFIX_LEN <= at <= count,
                has_prefix(text@),
                (at - URI_PREFIX_LEN) % 2 == 0,
                (count - URI_PREFIX_LEN) % 2 == 0,
                codes@.len() == count,
                text@.len() == count,
                body == body_of(text@),
                forall|k: int| 0 <= k < count ==> (#[trigger] codes@[k]) as char == text@[k],
                forall|k: int| 0 <= k < at - URI_PREFIX_LEN ==> digit_value(#[trigger] body[k]) is Some,
                payload@.len() == (at - URI_PREFIX_LEN) / 2,
                forall|j: int|
                    0 <= j < payload@.len() ==> #[trigger] payload@[j] == bytes_of_hex(body)[j],
            decreases count - at,
        {
            let high = hex_value(codes[at]);
            let low = hex_value(codes[at + 1]);
            proof {
                assert(body[at - URI_PREFIX_LEN] == text@[at as int]);
                assert(body[at - URI_PREFIX_LEN + 1] == text@[at + 1]);
            }
            match (high, low) {
                (Some(high), Some(low)) => {
                    payload.push(16 * high + low);
                },
                _ => {
                    return Err(DecodeError::BadText);
                },
            }
            at += 2;
        }
        proof {
            assert(is_hex_text(body));
            assert(payload@ =~= bytes_of_hex(body));
        }
        DecodedSignature::decode_from_binary(&payload)
    }
}

/// Every character of the prefix is an ASCII character.
proof fn lemma_prefix_is_ascii()
    ensures
        forall|k: int| 0 <= k < URI_PREFIX_LEN ==> '\0' <= #[trigger] uri_prefix()[k] <= '\u{7f}',
{
    reveal_strlit("data:application/x-signature;base16,");
}

} // verus!
