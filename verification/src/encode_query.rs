use vstd::prelude::*;

use vstd::utf8::encode_utf8;

use crate::error::AppError;
use crate::msgpack::{decode_model, decode_queries, enc_old_queries, enc_queries, encode_queries,
    lemma_codec_round_trip, lemma_legacy_decode, old_queries_encodable, queries_encodable};
use crate::types::{CalendarQuery, CalendarQueryV, OldCalendarQueryV};

verus! {

/// What `data_encoding::BASE64URL_NOPAD.encode` returns for given bytes.
/// The text depends on the bytes alone.
pub uninterp spec fn b64_of(bytes: Seq<u8>) -> Seq<char>;

/// A character of the URL-safe base64 alphabet.
pub open spec fn url_safe_char(c: char) -> bool {
    ||| 'A' <= c <= 'Z'
    ||| 'a' <= c <= 'z'
    ||| '0' <= c <= '9'
    ||| c == '-'
    ||| c == '_'
}

/// Relies on `data_encoding::BASE64URL_NOPAD.encode`: the URL-safe base64
/// text of the bytes, without padding. Its symbol table holds only the
/// sixty-four URL-safe characters; the unpadded text takes four characters
/// per three bytes, so its length stays under twice the byte count plus
/// four. The `requires` is the bound under which the documentation of
/// `encode_len` promises not to panic.
#[verifier::external_body]
fn b64_encode(bytes: &Vec<u8>) -> (r: String)
    requires
        bytes@.len() <= usize::MAX as int / 512,
    ensures
        r@ == b64_of(bytes@),
        r@.len() <= 2 * bytes@.len() + 4,
        forall|i: int| 0 <= i < r@.len() ==> url_safe_char(#[trigger] r@[i]),
{
    data_encoding::BASE64URL_NOPAD.encode(bytes.as_slice())
}

/// Relies on `data_encoding::BASE64URL_NOPAD.decode`, here handed the token
/// text as its UTF-8 bytes. The encoding is canonical (trailing bits are
/// checked), so decoding accepts exactly the texts that encoding produces: a
/// success returns the one byte string whose encoding the input spells, and a
/// failure means the input spells none. The length bound is the one under
/// which its documentation promises not to panic.
#[verifier::external_body]
fn b64_decode(token: &[u8]) -> (r: Option<Vec<u8>>)
    requires
        token@.len() <= usize::MAX as int / 8,
    ensures
        match r {
            Some(v) => {
                &&& token@ == encode_utf8(b64_of(v@))
                &&& forall|b: Seq<u8>| token@ == encode_utf8(#[trigger] b64_of(b)) ==> v@ == b
            },
            None => forall|b: Seq<u8>| token@ != encode_utf8(#[trigger] b64_of(b)),
        },
{
    data_encoding::BASE64URL_NOPAD.decode(token).ok()
}

/// The token of a query list: its byte format, base64-encoded.
pub open spec fn token_of(qs: Seq<CalendarQueryV>) -> Seq<char> {
    b64_of(enc_queries(qs))
}

/// The token of a legacy query list.
pub open spec fn old_token_of(qs: Seq<OldCalendarQueryV>) -> Seq<char> {
    b64_of(enc_old_queries(qs))
}

/// The machine bound under which a token string can be decoded at all.
pub open spec fn token_sized(t: Seq<char>) -> bool {
    encode_utf8(t).len() <= usize::MAX as int / 8
}

/// The token `t` is the base64 text of a byte string that decodes to `qs`.
pub open spec fn token_decodes_to(t: Seq<char>, qs: Seq<CalendarQueryV>) -> bool {
    exists|b: Seq<u8>| t == #[trigger] b64_of(b) && decode_model(b) == Some(qs)
}

/// Encodes a list of calendar queries into the URL-safe opaque token.
///
/// Succeeds exactly when every length in the list fits the byte format and
/// the byte form fits the machine bound of the base64 step. The token holds
/// only URL-safe base64 characters, no padding, and stays small enough that
/// decoding it is never stopped by the decoder's machine bound.
pub fn encode_calendar_query(query: &Vec<CalendarQuery>) -> (r: Result<String, AppError>)
    ensures
        match r {
            Ok(t) => {
                &&& queries_encodable(query.deep_view())
                &&& enc_queries(query.deep_view()).len() <= usize::MAX as int / 512
                &&& t@ == token_of(query.deep_view())
                &&& forall|i: int| 0 <= i < t@.len() ==> url_safe_char(#[trigger] t@[i])
                &&& token_sized(t@)
            },
            Err(e) => {
                &&& e == AppError::CodecError
                &&& !(queries_encodable(query.deep_view()) && enc_queries(
                    query.deep_view(),
                ).len() <= usize::MAX as int / 512)
            },
        },
{
    let bytes = match encode_queries(query) {
        Ok(b) => b,
        Err(e) => {
            return Err(e);
        },
    };
    if bytes.len() > usize::MAX / 512 {
        return Err(AppError::CodecError);
    }
    let token = b64_encode(&bytes);
    proof {
        // Every token character is ASCII, so its UTF-8 form is one byte per
        // character and the decoder's machine bound cannot stop it.
        assert(vstd::utf8::is_ascii_chars(token@));
        vstd::utf8::is_ascii_chars_encode_utf8(token@);
        assert(token@.len() <= 2 * (usize::MAX as int / 512) + 4);
    }
    Ok(token)
}

/// Decodes a token back into the list of calendar queries it encodes.
///
/// Succeeds exactly when, within the machine bound, the token is the base64
/// text of a byte string in the current or the legacy schema; a legacy list
/// comes back upgraded, with the custom name defaulted to absent. Any other
/// token is a codec error.
pub fn decode_calendar_query(query: &str) -> (r: Result<Vec<CalendarQuery>, AppError>)
    ensures
        match r {
            Ok(v) => {
                &&& token_decodes_to(query@, v.deep_view())
                &&& forall|b: Seq<u8>|
                    query@ == #[trigger] b64_of(b) ==> decode_model(b) == Some(v.deep_view())
            },
            Err(e) => {
                &&& e == AppError::CodecError
                &&& !token_sized(query@) || (forall|b: Seq<u8>|
                    query@ == #[trigger] b64_of(b) ==> decode_model(b) is None)
            },
        },
{
    let token = query.as_bytes();
    proof {
        broadcast use vstd::slice::axiom_spec_len;

        assert(token@ == encode_utf8(query@));
    }
    if token.len() > usize::MAX / 8 {
        return Err(AppError::CodecError);
    }
    let bytes = match b64_decode(token) {
        Some(b) => b,
        None => {
            proof {
                assert forall|b: Seq<u8>| query@ == #[trigger] b64_of(b) implies false by {
                    assert(token@ == encode_utf8(b64_of(b)));
                }
            }
            return Err(AppError::CodecError);
        },
    };
    proof {
        // UTF-8 encoding is injective, so the token text is the base64 text.
        vstd::utf8::encode_utf8_decode_utf8(query@);
        vstd::utf8::encode_utf8_decode_utf8(b64_of(bytes@));
        assert(query@ == b64_of(bytes@));
    }
    match decode_queries(&bytes) {
        Some(v) => {
            proof {
                assert(query@ == b64_of(bytes@) && decode_model(bytes@) == Some(v.deep_view()));
                assert forall|b: Seq<u8>|
                    query@ == #[trigger] b64_of(b) implies decode_model(b) == Some(
                    v.deep_view(),
                ) by {
                    assert(token@ == encode_utf8(b64_of(b)));
                    assert(bytes@ == b);
                }
            }
            Ok(v)
        },
        None => {
            proof {
                assert forall|b: Seq<u8>|
                    query@ == #[trigger] b64_of(b) implies decode_model(b) is None by {
                    assert(token@ == encode_utf8(b64_of(b)));
                    assert(bytes@ == b);
                }
            }
            Err(AppError::CodecError)
        },
    }
}

/// Round trip: the token of an encodable query list decodes to exactly that
/// list, whatever the queries hold — empty group lists, any characters in
/// the course code, a custom name present or absent.
pub proof fn lemma_token_round_trip(qs: Seq<CalendarQueryV>)
    requires
        queries_encodable(qs),
    ensures
        token_decodes_to(token_of(qs), qs),
{
    lemma_codec_round_trip(qs);
    assert(token_of(qs) == b64_of(enc_queries(qs)) && decode_model(enc_queries(qs)) == Some(qs));
}

/// Legacy decode: the token of a query list written in the legacy schema
/// decodes to the same list, each query's custom name defaulted to absent.
pub proof fn lemma_legacy_token_decode(qs: Seq<OldCalendarQueryV>)
    requires
        old_queries_encodable(qs),
    ensures
        token_decodes_to(
            old_token_of(qs),
            qs.map_values(|o: OldCalendarQueryV| o.upgrade()),
        ),
{
    lemma_legacy_decode(qs);
    assert(old_token_of(qs) == b64_of(enc_old_queries(qs)) && decode_model(enc_old_queries(qs))
        == Some(qs.map_values(|o: OldCalendarQueryV| o.upgrade())));
}

} // verus!
