use vstd::prelude::*;

use crate::error::{Error, ErrorKind};
use crate::paths::str_eq;

verus! {

// Content negotiation for a listing page, and content-length reading for a
// file peek.  Parsing the `Content-Type` header and decoding the body under
// its charset are the work of outside crates, trusted here under named
// results; everything around them — which header means HTML, the UTF-8
// default, when each failure kind is reported, and the decimal reading of
// `Content-Length` — is verified.

/// What the crawl reads of a parsed MIME type: top-level type, subtype, and
/// the `charset` parameter if any.
pub struct MimeEssence {
    pub top: String,
    pub sub: String,
    pub charset: Option<String>,
}

/// The mathematical value of a `MimeEssence`.
pub ghost struct MimeView {
    pub top: Seq<char>,
    pub sub: Seq<char>,
    pub charset: Option<Seq<char>>,
}

impl View for MimeEssence {
    type V = MimeView;

    open spec fn view(&self) -> MimeView {
        MimeView {
            top: self.top@,
            sub: self.sub@,
            charset: match self.charset {
                Some(c) => Some(c@),
                None => None,
            },
        }
    }
}

/// The essence of the MIME type that `s` parses to, or `None` where it does
/// not parse.
pub uninterp spec fn mime_of(s: Seq<char>) -> Option<MimeView>;

/// Relies on `mime::Mime`'s `FromStr`: parses a `Content-Type` value — a
/// function of the string alone — into its type, subtype and `charset`
/// parameter.
#[verifier::external_body]
fn parse_mime(s: &str) -> (r: Option<MimeEssence>)
    ensures
        match r {
            Some(m) => mime_of(s@) == Some(m@),
            None => mime_of(s@) is None,
        },
{
    match s.parse::<mime::Mime>() {
        Ok(m) => Some(MimeEssence {
            top: m.type_().as_str().to_string(),
            sub: m.subtype().as_str().to_string(),
            charset: m.get_param(mime::CHARSET).map(|c| c.as_str().to_string()),
        }),
        Err(_) => None,
    }
}

/// The text that `bytes` decodes to under the charset named `label`, invalid
/// sequences replaced — or `None` where `label` names no known charset.
pub uninterp spec fn decoded_of(label: Seq<char>, bytes: Seq<u8>) -> Option<Seq<char>>;

/// Relies on `encoding::label::encoding_from_whatwg_label` and
/// `Encoding::decode` with the replacing trap: looks the charset up by its
/// WHATWG label and decodes — a function of label and bytes alone, and with
/// replacement the decode itself does not fail.
#[verifier::external_body]
fn decode_with_label(label: &str, bytes: &[u8]) -> (r: Option<String>)
    ensures
        match r {
            Some(t) => decoded_of(label@, bytes@) == Some(t@),
            None => decoded_of(label@, bytes@) is None,
        },
{
    match encoding::label::encoding_from_whatwg_label(label) {
        None => None,
        Some(enc) => match enc.decode(bytes, encoding::types::DecoderTrap::Replace) {
            Ok(t) => Some(t),
            Err(_) => None,
        },
    }
}

/// Whether a parsed MIME type is `text/html`.
pub open spec fn is_html_mime(m: MimeView) -> bool {
    m.top == seq!['t', 'e', 'x', 't'] && m.sub == seq!['h', 't', 'm', 'l']
}

/// The charset label a listing body is decoded under: the MIME `charset`
/// parameter, defaulting to UTF-8.
pub open spec fn mime_charset(m: MimeView) -> Seq<char> {
    match m.charset {
        Some(c) => c,
        None => seq!['u', 't', 'f', '-', '8'],
    }
}

/// Decodes the body of a listing response into text: the `Content-Type` must
/// be present and parse as `text/html`, and the body is decoded under its
/// charset (UTF-8 when absent), replacing invalid sequences.  Each failure
/// kind is reported exactly when its clause says.
pub fn decode_listing_body(content_type: &Option<String>, body: &[u8]) -> (r: Result<
    String,
    Error,
>)
    ensures
        content_type is None ==> (r matches Err(e) && e.kind is MissingContentType),
        (content_type is Some && mime_of(content_type.unwrap()@) is None) ==> (r matches Err(e)
            && e.kind matches ErrorKind::UnsupportedContentType(s) && s@ == content_type.unwrap()@),
        (content_type is Some && mime_of(content_type.unwrap()@) is Some && !is_html_mime(
            mime_of(content_type.unwrap()@).unwrap(),
        )) ==> (r matches Err(e) && e.kind matches ErrorKind::UnsupportedContentType(s) && s@
            == content_type.unwrap()@),
        (content_type is Some && mime_of(content_type.unwrap()@) is Some && is_html_mime(
            mime_of(content_type.unwrap()@).unwrap(),
        ) && decoded_of(mime_charset(mime_of(content_type.unwrap()@).unwrap()), body@) is None)
            ==> (r matches Err(e) && e.kind is DecodeError),
        (content_type is Some && mime_of(content_type.unwrap()@) is Some && is_html_mime(
            mime_of(content_type.unwrap()@).unwrap(),
        ) && decoded_of(mime_charset(mime_of(content_type.unwrap()@).unwrap()), body@) is Some)
            ==> (r matches Ok(t) && t@ == decoded_of(
            mime_charset(mime_of(content_type.unwrap()@).unwrap()),
            body@,
        ).unwrap()),
{
    let ct = match content_type {
        None => {
            return Err(Error::new(ErrorKind::MissingContentType));
        },
        Some(ct) => ct,
    };
    let m = match parse_mime(ct.as_str()) {
        None => {
            return Err(Error::new(ErrorKind::UnsupportedContentType(ct.clone())));
        },
        Some(m) => m,
    };
    proof {
        reveal_strlit("text");
        reveal_strlit("html");
        assert("text"@ =~= seq!['t', 'e', 'x', 't']);
        assert("html"@ =~= seq!['h', 't', 'm', 'l']);
    }
    if !(str_eq(m.top.as_str(), "text") && str_eq(m.sub.as_str(), "html")) {
        return Err(Error::new(ErrorKind::UnsupportedContentType(ct.clone())));
    }
    proof {
        reveal_strlit("utf-8");
        assert("utf-8"@ =~= seq!['u', 't', 'f', '-', '8']);
    }
    let label: &str = match &m.charset {
        Some(c) => c.as_str(),
        None => "utf-8",
    };
    match decode_with_label(label, body) {
        None => Err(Error::new(ErrorKind::DecodeError)),
        Some(t) => Ok(t),
    }
}

// ---------------------------------------------------------------------------
// Content-Length
// ---------------------------------------------------------------------------

/// Whether `c` is a decimal digit.
pub open spec fn is_digit(c: char) -> bool {
    48 <= c as u32 <= 57
}

/// The value of the digit `c`.
pub open spec fn digit_val(c: char) -> int {
    c as u32 - 48
}

/// Whether every character of `s` is a decimal digit.
pub open spec fn all_digits(s: Seq<char>) -> bool {
    forall|i: int| 0 <= i < s.len() ==> is_digit(s[i])
}

/// The number the digit string `s` denotes.
pub open spec fn dec_value(s: Seq<char>) -> int
    decreases s.len(),
{
    if s.len() == 0 {
        0
    } else {
        dec_value(s.drop_last()) * 10 + digit_val(s.last())
    }
}

/// What a decimal string parses to: a nonempty all-digit string whose value
/// fits in a `u64`, else nothing.
pub open spec fn parse_u64_spec(s: Seq<char>) -> Option<u64> {
    if s.len() > 0 && all_digits(s) && dec_value(s) <= u64::MAX {
        Some(dec_value(s) as u64)
    } else {
        None
    }
}

proof fn lemma_dec_value_nonneg(s: Seq<char>)
    requires
        all_digits(s),
    ensures
        dec_value(s) >= 0,
    decreases s.len(),
{
    if s.len() > 0 {
        assert(is_digit(s.last()));
        lemma_dec_value_nonneg(s.drop_last());
    }
}

/// Appending digits never shrinks the value.
proof fn lemma_dec_value_mono(s: Seq<char>, i: int)
    requires
        0 <= i <= s.len(),
        all_digits(s),
    ensures
        dec_value(s) >= dec_value(s.take(i)),
    decreases s.len() - i,
{
    if i == s.len() {
        assert(s.take(i) =~= s);
    } else {
        assert(s.take(i + 1).drop_last() =~= s.take(i));
        assert(s.take(i + 1).last() == s[i]);
        assert(is_digit(s[i]));
        assert(all_digits(s.take(i))) by {
            assert(forall|j: int| 0 <= j < i ==> s.take(i)[j] == s[j]);
        }
        lemma_dec_value_nonneg(s.take(i));
        lemma_dec_value_mono(s, i + 1);
    }
}

/// Reads a decimal `u64`: exactly the nonempty all-digit strings whose value
/// fits.
pub fn parse_u64(s: &str) -> (r: Option<u64>)
    ensures
        r == parse_u64_spec(s@),
{
    let n = s.unicode_len();
    if n == 0 {
        return None;
    }
    let mut acc: u64 = 0;
    let mut i: usize = 0;
    proof {
        assert(s@.take(0) =~= Seq::<char>::empty());
    }
    while i < n
        invariant
            i <= n,
            n == s@.len(),
            all_digits(s@.take(i as int)),
            acc == dec_value(s@.take(i as int)),
        decreases n - i,
    {
        proof {
            assert(s@.take(i + 1).drop_last() =~= s@.take(i as int));
            assert(s@.take(i + 1).last() == s@[i as int]);
        }
        let c = s.get_char(i);
        let cu = c as u32;
        if !(48 <= cu && cu <= 57) {
            proof {
                assert(!all_digits(s@)) by {
                    if all_digits(s@) {
                        assert(is_digit(s@[i as int]));
                    }
                }
            }
            return None;
        }
        let d = (cu - 48) as u64;
        let acc10 = match acc.checked_mul(10) {
            Some(t) => t,
            None => {
                proof {
                    assert(all_digits(s@.take(i + 1)));
                    assert(dec_value(s@.take(i + 1)) > u64::MAX);
                    if all_digits(s@) {
                        lemma_dec_value_mono(s@, i + 1);
                    }
                }
                return None;
            },
        };
        let next = match acc10.checked_add(d) {
            Some(t) => t,
            None => {
                proof {
                    assert(all_digits(s@.take(i + 1)));
                    assert(dec_value(s@.take(i + 1)) > u64::MAX);
                    if all_digits(s@) {
                        lemma_dec_value_mono(s@, i + 1);
                    }
                }
                return None;
            },
        };
        acc = next;
        i += 1;
    }
    proof {
        assert(s@.take(i as int) =~= s@);
    }
    Some(acc)
}

/// Reads the declared content length of a file's HEAD response: a missing or
/// non-decimal `Content-Length` fails, carrying the status code observed.
pub fn content_length_value(content_length: &Option<String>, status: u16) -> (r: Result<u64, Error>)
    ensures
        content_length is None ==> (r matches Err(e) && e.kind
            matches ErrorKind::MissingOrInvalidContentLength(st) && st == status),
        (content_length is Some && parse_u64_spec(content_length.unwrap()@) is None) ==> (
        r matches Err(e) && e.kind matches ErrorKind::MissingOrInvalidContentLength(st) && st
            == status),
        (content_length is Some && parse_u64_spec(content_length.unwrap()@) is Some) ==> (
        r matches Ok(v) && v == parse_u64_spec(content_length.unwrap()@).unwrap()),
{
    match content_length {
        None => Err(Error::new(ErrorKind::MissingOrInvalidContentLength(status))),
        Some(s) => match parse_u64(s.as_str()) {
            None => Err(Error::new(ErrorKind::MissingOrInvalidContentLength(status))),
            Some(v) => Ok(v),
        },
    }
}

} // verus!
