use vstd::prelude::*;

use vstd::utf8::{decode_utf8, encode_utf8, valid_utf8};

use crate::error::AppError;
use crate::types::{CalendarQuery, CalendarQueryV, CourseIdentifier, CourseIdentifierV,
    OldCalendarQuery, OldCalendarQueryV};

verus! {

// ===========================================================================
// The byte format of the calendar-query token, before base64.
//
// A list of queries is laid down in the MessagePack interchange format, in
// its most compact (canonical) representation: every struct is an array of
// its fields in order, strings carry their UTF-8 bytes behind the shortest
// possible length header, integers take the shortest marker that holds their
// value, and an absent custom name is the nil byte.
// ===========================================================================

/// Two big-endian bytes of `n`.
pub open spec fn be16(n: int) -> Seq<u8> {
    seq![((n / 256) % 256) as u8, (n % 256) as u8]
}

/// Four big-endian bytes of `n`.
pub open spec fn be32(n: int) -> Seq<u8> {
    seq![
        ((n / 0x1000000) % 256) as u8,
        ((n / 0x10000) % 256) as u8,
        ((n / 256) % 256) as u8,
        (n % 256) as u8,
    ]
}

/// The value read back from two big-endian bytes at `i`.
pub open spec fn be16_val(b: Seq<u8>, i: int) -> int {
    b[i] * 256 + b[i + 1]
}

/// The value read back from four big-endian bytes at `i`.
pub open spec fn be32_val(b: Seq<u8>, i: int) -> int {
    b[i] * 0x1000000 + b[i + 1] * 0x10000 + b[i + 2] * 256 + b[i + 3]
}

/// Array header: fixarray below 16 elements, else a 16- or 32-bit length.
pub open spec fn enc_arr_len(n: int) -> Seq<u8> {
    if n < 16 {
        seq![(0x90 + n) as u8]
    } else if n < 65536 {
        seq![0xdcu8] + be16(n)
    } else {
        seq![0xddu8] + be32(n)
    }
}

/// String header: fixstr below 32 bytes, else an 8-, 16- or 32-bit length.
pub open spec fn enc_str_len(n: int) -> Seq<u8> {
    if n < 32 {
        seq![(0xa0 + n) as u8]
    } else if n < 256 {
        seq![0xd9u8, n as u8]
    } else if n < 65536 {
        seq![0xdau8] + be16(n)
    } else {
        seq![0xdbu8] + be32(n)
    }
}

/// A string: its header followed by its UTF-8 bytes.
pub open spec fn enc_str(s: Seq<char>) -> Seq<u8> {
    enc_str_len(encode_utf8(s).len() as int) + encode_utf8(s)
}

/// An integer in the most compact representation of its value:
/// fixint, then unsigned markers for positive and signed for negative values.
pub open spec fn enc_int(v: int) -> Seq<u8> {
    if 0 <= v < 128 {
        seq![v as u8]
    } else if -32 <= v < 0 {
        seq![(v + 256) as u8]
    } else if 128 <= v < 256 {
        seq![0xccu8, v as u8]
    } else if 256 <= v < 65536 {
        seq![0xcdu8] + be16(v)
    } else if 65536 <= v {
        seq![0xceu8] + be32(v)
    } else if -128 <= v < -32 {
        seq![0xd0u8, (v + 256) as u8]
    } else if -32768 <= v < -128 {
        seq![0xd1u8] + be16(v + 65536)
    } else {
        seq![0xd2u8] + be32(v + 0x100000000)
    }
}

/// An optional custom name: nil when absent, a string when present.
pub open spec fn enc_custom(c: Option<Seq<char>>) -> Seq<u8> {
    match c {
        None => seq![0xc0u8],
        Some(s) => enc_str(s),
    }
}

/// A course identifier: an array of code, term and semester.
pub open spec fn enc_identifier(c: CourseIdentifierV) -> Seq<u8> {
    enc_arr_len(3) + enc_str(c.course_code) + enc_int(c.course_term) + enc_str(c.semester)
}

/// The strings of a list, one after the other.
pub open spec fn enc_str_list(items: Seq<Seq<char>>) -> Seq<u8>
    decreases items.len(),
{
    if items.len() == 0 {
        Seq::empty()
    } else {
        enc_str(items[0]) + enc_str_list(items.drop_first())
    }
}

/// A student-group list: array header, then the group names.
pub open spec fn enc_groups(groups: Seq<Seq<char>>) -> Seq<u8> {
    enc_arr_len(groups.len() as int) + enc_str_list(groups)
}

/// A calendar query: an array of identifier, groups and custom name.
pub open spec fn enc_query(q: CalendarQueryV) -> Seq<u8> {
    enc_arr_len(3) + enc_identifier(q.identifier) + enc_groups(q.student_groups) + enc_custom(
        q.custom_name,
    )
}

/// The queries of a list, one after the other.
pub open spec fn enc_query_list(qs: Seq<CalendarQueryV>) -> Seq<u8>
    decreases qs.len(),
{
    if qs.len() == 0 {
        Seq::empty()
    } else {
        enc_query(qs[0]) + enc_query_list(qs.drop_first())
    }
}

/// A whole token body: array header, then the queries.
pub open spec fn enc_queries(qs: Seq<CalendarQueryV>) -> Seq<u8> {
    enc_arr_len(qs.len() as int) + enc_query_list(qs)
}

/// A legacy calendar query: an array of identifier and groups only.
pub open spec fn enc_old_query(q: OldCalendarQueryV) -> Seq<u8> {
    enc_arr_len(2) + enc_identifier(q.identifier) + enc_groups(q.student_groups)
}

/// The legacy queries of a list, one after the other.
pub open spec fn enc_old_query_list(qs: Seq<OldCalendarQueryV>) -> Seq<u8>
    decreases qs.len(),
{
    if qs.len() == 0 {
        Seq::empty()
    } else {
        enc_old_query(qs[0]) + enc_old_query_list(qs.drop_first())
    }
}

/// A whole legacy token body: array header, then the legacy queries.
pub open spec fn enc_old_queries(qs: Seq<OldCalendarQueryV>) -> Seq<u8> {
    enc_arr_len(qs.len() as int) + enc_old_query_list(qs)
}

// ---------------------------------------------------------------------------
// What the format can hold: every length must fit its widest header.
// ---------------------------------------------------------------------------

/// A string is encodable when its UTF-8 form fits a 32-bit length.
pub open spec fn str_encodable(s: Seq<char>) -> bool {
    encode_utf8(s).len() < 0x100000000
}

/// Group lists are bounded by the 32-bit array header.
pub open spec fn groups_encodable(groups: Seq<Seq<char>>) -> bool {
    &&& groups.len() < 0x100000000
    &&& forall|i: int| 0 <= i < groups.len() ==> str_encodable(#[trigger] groups[i])
}

/// Both strings of an identifier must be encodable; the term always is.
pub open spec fn identifier_encodable(c: CourseIdentifierV) -> bool {
    &&& str_encodable(c.course_code)
    &&& str_encodable(c.semester)
    &&& -0x80000000 <= c.course_term < 0x80000000
}

pub open spec fn query_encodable(q: CalendarQueryV) -> bool {
    &&& identifier_encodable(q.identifier)
    &&& groups_encodable(q.student_groups)
    &&& match q.custom_name {
        None => true,
        Some(s) => str_encodable(s),
    }
}

pub open spec fn queries_encodable(qs: Seq<CalendarQueryV>) -> bool {
    &&& qs.len() < 0x100000000
    &&& forall|i: int| 0 <= i < qs.len() ==> query_encodable(#[trigger] qs[i])
}

pub open spec fn old_query_encodable(q: OldCalendarQueryV) -> bool {
    &&& identifier_encodable(q.identifier)
    &&& groups_encodable(q.student_groups)
}

pub open spec fn old_queries_encodable(qs: Seq<OldCalendarQueryV>) -> bool {
    &&& qs.len() < 0x100000000
    &&& forall|i: int| 0 <= i < qs.len() ==> old_query_encodable(#[trigger] qs[i])
}

// ===========================================================================
// The parser, at the mathematical level.
//
// Each function reads one item at position `i` and gives back the item and
// the position after it, or nothing when the bytes there do not hold the
// item in its canonical form. Only the canonical representation written by
// the encoding above is accepted.
// ===========================================================================

/// Reads an array header.
pub open spec fn parse_arr_len(b: Seq<u8>, i: int) -> Option<(int, int)> {
    if i < 0 || i >= b.len() {
        None
    } else {
        let m = b[i];
        if 0x90 <= m <= 0x9f {
            Some(((m - 0x90) as int, i + 1))
        } else if m == 0xdc {
            if i + 3 <= b.len() && be16_val(b, i + 1) >= 16 {
                Some((be16_val(b, i + 1), i + 3))
            } else {
                None
            }
        } else if m == 0xdd {
            if i + 5 <= b.len() && be32_val(b, i + 1) >= 65536 {
                Some((be32_val(b, i + 1), i + 5))
            } else {
                None
            }
        } else {
            None
        }
    }
}

/// Reads a string header.
pub open spec fn parse_str_len(b: Seq<u8>, i: int) -> Option<(int, int)> {
    if i < 0 || i >= b.len() {
        None
    } else {
        let m = b[i];
        if 0xa0 <= m <= 0xbf {
            Some(((m - 0xa0) as int, i + 1))
        } else if m == 0xd9 {
            if i + 2 <= b.len() && b[i + 1] >= 32 {
                Some((b[i + 1] as int, i + 2))
            } else {
                None
            }
        } else if m == 0xda {
            if i + 3 <= b.len() && be16_val(b, i + 1) >= 256 {
                Some((be16_val(b, i + 1), i + 3))
            } else {
                None
            }
        } else if m == 0xdb {
            if i + 5 <= b.len() && be32_val(b, i + 1) >= 65536 {
                Some((be32_val(b, i + 1), i + 5))
            } else {
                None
            }
        } else {
            None
        }
    }
}

/// Reads a string: a header, then that many bytes of valid UTF-8.
pub open spec fn parse_str(b: Seq<u8>, i: int) -> Option<(Seq<char>, int)> {
    match parse_str_len(b, i) {
        None => None,
        Some((n, j)) => {
            if j + n <= b.len() && valid_utf8(b.subrange(j, j + n)) {
                Some((decode_utf8(b.subrange(j, j + n)), j + n))
            } else {
                None
            }
        },
    }
}

/// Reads an integer in the 32-bit signed range, canonical representation only.
pub open spec fn parse_int(b: Seq<u8>, i: int) -> Option<(int, int)> {
    if i < 0 || i >= b.len() {
        None
    } else {
        let m = b[i];
        if m < 0x80 {
            Some((m as int, i + 1))
        } else if m >= 0xe0 {
            Some((m - 256, i + 1))
        } else if m == 0xcc {
            if i + 2 <= b.len() && b[i + 1] >= 128 {
                Some((b[i + 1] as int, i + 2))
            } else {
                None
            }
        } else if m == 0xcd {
            if i + 3 <= b.len() && be16_val(b, i + 1) >= 256 {
                Some((be16_val(b, i + 1), i + 3))
            } else {
                None
            }
        } else if m == 0xce {
            if i + 5 <= b.len() && 65536 <= be32_val(b, i + 1) < 0x80000000 {
                Some((be32_val(b, i + 1), i + 5))
            } else {
                None
            }
        } else if m == 0xd0 {
            if i + 2 <= b.len() && 128 <= b[i + 1] < 224 {
                Some((b[i + 1] - 256, i + 2))
            } else {
                None
            }
        } else if m == 0xd1 {
            if i + 3 <= b.len() && 32768 <= be16_val(b, i + 1) < 65408 {
                Some((be16_val(b, i + 1) - 65536, i + 3))
            } else {
                None
            }
        } else if m == 0xd2 {
            if i + 5 <= b.len() && 0x80000000 <= be32_val(b, i + 1) < 0xFFFF8000 {
                Some((be32_val(b, i + 1) - 0x100000000, i + 5))
            } else {
                None
            }
        } else {
            None
        }
    }
}

/// Reads an optional custom name: nil, or a string.
pub open spec fn parse_custom(b: Seq<u8>, i: int) -> Option<(Option<Seq<char>>, int)> {
    if 0 <= i < b.len() && b[i] == 0xc0 {
        Some((None, i + 1))
    } else {
        match parse_str(b, i) {
            None => None,
            Some((s, j)) => Some((Some(s), j)),
        }
    }
}

/// Reads a course identifier: an array of exactly code, term and semester.
pub open spec fn parse_identifier(b: Seq<u8>, i: int) -> Option<(CourseIdentifierV, int)> {
    match parse_arr_len(b, i) {
        None => None,
        Some((n, j)) => {
            if n != 3 {
                None
            } else {
                match parse_str(b, j) {
                    None => None,
                    Some((code, j1)) => match parse_int(b, j1) {
                        None => None,
                        Some((term, j2)) => match parse_str(b, j2) {
                            None => None,
                            Some((sem, j3)) => Some(
                                (
                                    CourseIdentifierV {
                                        course_code: code,
                                        course_term: term,
                                        semester: sem,
                                    },
                                    j3,
                                ),
                            ),
                        },
                    },
                }
            }
        },
    }
}

/// Reads `n` strings, one after the other.
pub open spec fn parse_str_list(b: Seq<u8>, i: int, n: nat) -> Option<(Seq<Seq<char>>, int)>
    decreases n,
{
    if n == 0 {
        Some((Seq::empty(), i))
    } else {
        match parse_str(b, i) {
            None => None,
            Some((s, j)) => match parse_str_list(b, j, (n - 1) as nat) {
                None => None,
                Some((rest, e)) => Some((seq![s] + rest, e)),
            },
        }
    }
}

/// Reads a student-group list.
pub open spec fn parse_groups(b: Seq<u8>, i: int) -> Option<(Seq<Seq<char>>, int)> {
    match parse_arr_len(b, i) {
        None => None,
        Some((n, j)) => parse_str_list(b, j, n as nat),
    }
}

/// Reads one calendar query in the current schema.
pub open spec fn parse_query(b: Seq<u8>, i: int) -> Option<(CalendarQueryV, int)> {
    match parse_arr_len(b, i) {
        None => None,
        Some((n, j)) => {
            if n != 3 {
                None
            } else {
                match parse_identifier(b, j) {
                    None => None,
                    Some((ident, j1)) => match parse_groups(b, j1) {
                        None => None,
                        Some((groups, j2)) => match parse_custom(b, j2) {
                            None => None,
                            Some((custom, j3)) => Some(
                                (
                                    CalendarQueryV {
                                        identifier: ident,
                                        student_groups: groups,
                                        custom_name: custom,
                                    },
                                    j3,
                                ),
                            ),
                        },
                    },
                }
            }
        },
    }
}

/// Reads `n` calendar queries, one after the other.
pub open spec fn parse_query_list(b: Seq<u8>, i: int, n: nat) -> Option<(Seq<CalendarQueryV>, int)>
    decreases n,
{
    if n == 0 {
        Some((Seq::empty(), i))
    } else {
        match parse_query(b, i) {
            None => None,
            Some((q, j)) => match parse_query_list(b, j, (n - 1) as nat) {
                None => None,
                Some((rest, e)) => Some((seq![q] + rest, e)),
            },
        }
    }
}

/// Reads a whole token body in the current schema; every byte must be used.
pub open spec fn parse_queries(b: Seq<u8>) -> Option<Seq<CalendarQueryV>> {
    match parse_arr_len(b, 0) {
        None => None,
        Some((n, j)) => match parse_query_list(b, j, n as nat) {
            None => None,
            Some((qs, e)) => if e == b.len() {
                Some(qs)
            } else {
                None
            },
        },
    }
}

/// Reads one calendar query in the legacy schema.
pub open spec fn parse_old_query(b: Seq<u8>, i: int) -> Option<(OldCalendarQueryV, int)> {
    match parse_arr_len(b, i) {
        None => None,
        Some((n, j)) => {
            if n != 2 {
                None
            } else {
                match parse_identifier(b, j) {
                    None => None,
                    Some((ident, j1)) => match parse_groups(b, j1) {
                        None => None,
                        Some((groups, j2)) => Some(
                            (OldCalendarQueryV { identifier: ident, student_groups: groups }, j2),
                        ),
                    },
                }
            }
        },
    }
}

/// Reads `n` legacy queries, one after the other.
pub open spec fn parse_old_query_list(b: Seq<u8>, i: int, n: nat) -> Option<
    (Seq<OldCalendarQueryV>, int),
>
    decreases n,
{
    if n == 0 {
        Some((Seq::empty(), i))
    } else {
        match parse_old_query(b, i) {
            None => None,
            Some((q, j)) => match parse_old_query_list(b, j, (n - 1) as nat) {
                None => None,
                Some((rest, e)) => Some((seq![q] + rest, e)),
            },
        }
    }
}

/// Reads a whole token body in the legacy schema; every byte must be used.
pub open spec fn parse_old_queries(b: Seq<u8>) -> Option<Seq<OldCalendarQueryV>> {
    match parse_arr_len(b, 0) {
        None => None,
        Some((n, j)) => match parse_old_query_list(b, j, n as nat) {
            None => None,
            Some((qs, e)) => if e == b.len() {
                Some(qs)
            } else {
                None
            },
        },
    }
}

/// What a token body decodes to: the current schema where it fits, else the
/// legacy schema upgraded with an absent custom name, else nothing.
pub open spec fn decode_model(b: Seq<u8>) -> Option<Seq<CalendarQueryV>> {
    match parse_queries(b) {
        Some(qs) => Some(qs),
        None => match parse_old_queries(b) {
            Some(olds) => Some(olds.map_values(|o: OldCalendarQueryV| o.upgrade())),
            None => None,
        },
    }
}

// ===========================================================================
// The encoding parses back to what was encoded.
// ===========================================================================

/// `seg` lies in `b` starting at `i`.
pub open spec fn seg_at(b: Seq<u8>, i: int, seg: Seq<u8>) -> bool {
    &&& 0 <= i
    &&& i + seg.len() <= b.len()
    &&& b.subrange(i, i + seg.len()) == seg
}

/// One byte can be read off a placed segment.
proof fn lemma_seg_byte(b: Seq<u8>, i: int, seg: Seq<u8>, k: int)
    requires
        seg_at(b, i, seg),
        0 <= k < seg.len(),
    ensures
        b[i + k] == seg[k],
{
    assert(b.subrange(i, i + seg.len())[k] == seg[k]);
}

/// A placed concatenation places both parts.
proof fn lemma_seg_at_concat(b: Seq<u8>, i: int, x: Seq<u8>, y: Seq<u8>)
    requires
        seg_at(b, i, x + y),
    ensures
        seg_at(b, i, x),
        seg_at(b, i + x.len(), y),
{
    assert forall|k: int| 0 <= k < x.len() implies b.subrange(i, i + x.len())[k] == x[k] by {
        lemma_seg_byte(b, i, x + y, k);
        assert((x + y)[k] == x[k]);
    }
    assert(b.subrange(i, i + x.len()) =~= x);
    assert forall|k: int|
        0 <= k < y.len() implies b.subrange(i + x.len(), i + x.len() + y.len())[k] == y[k] by {
        lemma_seg_byte(b, i, x + y, x.len() + k);
        assert((x + y)[x.len() + k] == y[k]);
    }
    assert(b.subrange(i + x.len(), i + x.len() + y.len()) =~= y);
}

/// Reading two big-endian bytes gives back the written value.
proof fn lemma_be16_roundtrip(b: Seq<u8>, i: int, n: int)
    requires
        0 <= n < 65536,
        seg_at(b, i, be16(n)),
    ensures
        be16_val(b, i) == n,
{
    lemma_seg_byte(b, i, be16(n), 0);
    lemma_seg_byte(b, i, be16(n), 1);
    assert(b[i] == ((n / 256) % 256) as u8);
    assert(b[i + 1] == (n % 256) as u8);
}

/// Reading four big-endian bytes gives back the written value.
proof fn lemma_be32_roundtrip(b: Seq<u8>, i: int, n: int)
    requires
        0 <= n < 0x100000000,
        seg_at(b, i, be32(n)),
    ensures
        be32_val(b, i) == n,
{
    lemma_seg_byte(b, i, be32(n), 0);
    lemma_seg_byte(b, i, be32(n), 1);
    lemma_seg_byte(b, i, be32(n), 2);
    lemma_seg_byte(b, i, be32(n), 3);
    assert(b[i] == ((n / 0x1000000) % 256) as u8);
    assert(b[i + 1] == ((n / 0x10000) % 256) as u8);
    assert(b[i + 2] == ((n / 256) % 256) as u8);
    assert(b[i + 3] == (n % 256) as u8);
    assert(b[i] * 0x1000000 + b[i + 1] * 0x10000 + b[i + 2] * 256 + b[i + 3] == n) by {
        assert(n / 0x1000000 < 256);
        assert((n / 0x1000000) * 0x1000000 + (n % 0x1000000) == n) by (nonlinear_arith);
        assert(((n % 0x1000000) / 0x10000) * 0x10000 + (n % 0x1000000) % 0x10000 == n % 0x1000000)
            by (nonlinear_arith);
        assert((n / 0x10000) % 256 == (n % 0x1000000) / 0x10000) by (nonlinear_arith);
        assert(((n % 0x10000) / 256) * 256 + (n % 0x10000) % 256 == n % 0x10000)
            by (nonlinear_arith);
        assert((n / 256) % 256 == (n % 0x10000) / 256) by (nonlinear_arith);
        assert(n % 256 == (n % 0x10000) % 256) by (nonlinear_arith);
    }
}

/// An array header parses back to its length.
proof fn lemma_parse_arr_len_enc(n: int, b: Seq<u8>, i: int)
    requires
        0 <= n < 0x100000000,
        seg_at(b, i, enc_arr_len(n)),
    ensures
        parse_arr_len(b, i) == Some((n, i + enc_arr_len(n).len())),
{
    if n < 16 {
        lemma_seg_byte(b, i, enc_arr_len(n), 0);
        assert(b[i] == (0x90 + n) as u8);
    } else if n < 65536 {
        lemma_seg_at_concat(b, i, seq![0xdcu8], be16(n));
        lemma_seg_byte(b, i, seq![0xdcu8], 0);
        lemma_be16_roundtrip(b, i + 1, n);
    } else {
        lemma_seg_at_concat(b, i, seq![0xddu8], be32(n));
        lemma_seg_byte(b, i, seq![0xddu8], 0);
        lemma_be32_roundtrip(b, i + 1, n);
    }
}

/// A string header parses back to its length.
proof fn lemma_parse_str_len_enc(n: int, b: Seq<u8>, i: int)
    requires
        0 <= n < 0x100000000,
        seg_at(b, i, enc_str_len(n)),
    ensures
        parse_str_len(b, i) == Some((n, i + enc_str_len(n).len())),
{
    if n < 32 {
        lemma_seg_byte(b, i, enc_str_len(n), 0);
        assert(b[i] == (0xa0 + n) as u8);
    } else if n < 256 {
        lemma_seg_byte(b, i, enc_str_len(n), 0);
        lemma_seg_byte(b, i, enc_str_len(n), 1);
        assert(b[i] == 0xd9);
        assert(b[i + 1] == n as u8);
    } else if n < 65536 {
        lemma_seg_at_concat(b, i, seq![0xdau8], be16(n));
        lemma_seg_byte(b, i, seq![0xdau8], 0);
        lemma_be16_roundtrip(b, i + 1, n);
    } else {
        lemma_seg_at_concat(b, i, seq![0xdbu8], be32(n));
        lemma_seg_byte(b, i, seq![0xdbu8], 0);
        lemma_be32_roundtrip(b, i + 1, n);
    }
}

/// An encoded string parses back to its characters.
proof fn lemma_parse_str_enc(s: Seq<char>, b: Seq<u8>, i: int)
    requires
        str_encodable(s),
        seg_at(b, i, enc_str(s)),
    ensures
        parse_str(b, i) == Some((s, i + enc_str(s).len())),
{
    broadcast use vstd::utf8::encode_utf8_valid_utf8;

    let u = encode_utf8(s);
    lemma_seg_at_concat(b, i, enc_str_len(u.len() as int), u);
    lemma_parse_str_len_enc(u.len() as int, b, i);
    let j = i + enc_str_len(u.len() as int).len();
    assert(b.subrange(j, j + u.len()) == u);
    vstd::utf8::encode_utf8_decode_utf8(s);
}

/// An encoded integer parses back to its value.
proof fn lemma_parse_int_enc(v: int, b: Seq<u8>, i: int)
    requires
        -0x80000000 <= v < 0x80000000,
        seg_at(b, i, enc_int(v)),
    ensures
        parse_int(b, i) == Some((v, i + enc_int(v).len())),
{
    if 0 <= v < 128 {
        lemma_seg_byte(b, i, enc_int(v), 0);
        assert(b[i] == v as u8);
    } else if -32 <= v < 0 {
        lemma_seg_byte(b, i, enc_int(v), 0);
        assert(b[i] == (v + 256) as u8);
    } else if 128 <= v < 256 {
        lemma_seg_byte(b, i, enc_int(v), 0);
        lemma_seg_byte(b, i, enc_int(v), 1);
        assert(b[i] == 0xcc);
        assert(b[i + 1] == v as u8);
    } else if 256 <= v < 65536 {
        lemma_seg_at_concat(b, i, seq![0xcdu8], be16(v));
        lemma_seg_byte(b, i, seq![0xcdu8], 0);
        lemma_be16_roundtrip(b, i + 1, v);
    } else if 65536 <= v {
        lemma_seg_at_concat(b, i, seq![0xceu8], be32(v));
        lemma_seg_byte(b, i, seq![0xceu8], 0);
        lemma_be32_roundtrip(b, i + 1, v);
    } else if -128 <= v < -32 {
        lemma_seg_byte(b, i, enc_int(v), 0);
        lemma_seg_byte(b, i, enc_int(v), 1);
        assert(b[i] == 0xd0);
        assert(b[i + 1] == (v + 256) as u8);
    } else if -32768 <= v < -128 {
        lemma_seg_at_concat(b, i, seq![0xd1u8], be16(v + 65536));
        lemma_seg_byte(b, i, seq![0xd1u8], 0);
        lemma_be16_roundtrip(b, i + 1, v + 65536);
    } else {
        lemma_seg_at_concat(b, i, seq![0xd2u8], be32(v + 0x100000000));
        lemma_seg_byte(b, i, seq![0xd2u8], 0);
        lemma_be32_roundtrip(b, i + 1, v + 0x100000000);
    }
}

/// An encoded optional custom name parses back to itself.
proof fn lemma_parse_custom_enc(c: Option<Seq<char>>, b: Seq<u8>, i: int)
    requires
        match c {
            None => true,
            Some(s) => str_encodable(s),
        },
        seg_at(b, i, enc_custom(c)),
    ensures
        parse_custom(b, i) == Some((c, i + enc_custom(c).len())),
{
    match c {
        None => {
            lemma_seg_byte(b, i, seq![0xc0u8], 0);
            assert(b[i] == 0xc0);
        },
        Some(s) => {
            // The first byte of a string is a header byte, never nil.
            let u = encode_utf8(s);
            let n = u.len() as int;
            lemma_seg_at_concat(b, i, enc_str_len(n), u);
            lemma_seg_byte(b, i, enc_str_len(n), 0);
            if n < 32 {
                assert(b[i] == (0xa0 + n) as u8);
            } else if n < 256 {
                assert(b[i] == 0xd9);
            } else if n < 65536 {
                assert(b[i] == 0xda);
            } else {
                assert(b[i] == 0xdb);
            }
            assert(b[i] != 0xc0);
            lemma_parse_str_enc(s, b, i);
        },
    }
}

/// An encoded course identifier parses back to itself.
proof fn lemma_parse_identifier_enc(c: CourseIdentifierV, b: Seq<u8>, i: int)
    requires
        identifier_encodable(c),
        seg_at(b, i, enc_identifier(c)),
    ensures
        parse_identifier(b, i) == Some((c, i + enc_identifier(c).len())),
{
    let h = enc_arr_len(3);
    let x1 = enc_str(c.course_code);
    let x2 = enc_int(c.course_term);
    let x3 = enc_str(c.semester);
    lemma_seg_at_concat(b, i, h + x1 + x2, x3);
    lemma_seg_at_concat(b, i, h + x1, x2);
    lemma_seg_at_concat(b, i, h, x1);
    lemma_parse_arr_len_enc(3, b, i);
    lemma_parse_str_enc(c.course_code, b, i + h.len());
    lemma_parse_int_enc(c.course_term, b, i + h.len() + x1.len());
    lemma_parse_str_enc(c.semester, b, i + h.len() + x1.len() + x2.len());
}

/// An encoded string list parses back to itself.
proof fn lemma_parse_str_list_enc(items: Seq<Seq<char>>, b: Seq<u8>, i: int)
    requires
        forall|k: int| 0 <= k < items.len() ==> str_encodable(#[trigger] items[k]),
        seg_at(b, i, enc_str_list(items)),
    ensures
        parse_str_list(b, i, items.len()) == Some((items, i + enc_str_list(items).len())),
    decreases items.len(),
{
    if items.len() == 0 {
        assert(items =~= Seq::<Seq<char>>::empty());
    } else {
        let x = enc_str(items[0]);
        let rest = items.drop_first();
        lemma_seg_at_concat(b, i, x, enc_str_list(rest));
        lemma_parse_str_enc(items[0], b, i);
        assert(forall|k: int| 0 <= k < rest.len() ==> str_encodable(#[trigger] rest[k]));
        lemma_parse_str_list_enc(rest, b, i + x.len());
        assert(seq![items[0]] + rest =~= items);
    }
}

/// An encoded student-group list parses back to itself.
proof fn lemma_parse_groups_enc(groups: Seq<Seq<char>>, b: Seq<u8>, i: int)
    requires
        groups_encodable(groups),
        seg_at(b, i, enc_groups(groups)),
    ensures
        parse_groups(b, i) == Some((groups, i + enc_groups(groups).len())),
{
    let h = enc_arr_len(groups.len() as int);
    lemma_seg_at_concat(b, i, h, enc_str_list(groups));
    lemma_parse_arr_len_enc(groups.len() as int, b, i);
    lemma_parse_str_list_enc(groups, b, i + h.len());
}

/// An encoded calendar query parses back to itself.
proof fn lemma_parse_query_enc(q: CalendarQueryV, b: Seq<u8>, i: int)
    requires
        query_encodable(q),
        seg_at(b, i, enc_query(q)),
    ensures
        parse_query(b, i) == Some((q, i + enc_query(q).len())),
{
    let h = enc_arr_len(3);
    let x1 = enc_identifier(q.identifier);
    let x2 = enc_groups(q.student_groups);
    let x3 = enc_custom(q.custom_name);
    lemma_seg_at_concat(b, i, h + x1 + x2, x3);
    lemma_seg_at_concat(b, i, h + x1, x2);
    lemma_seg_at_concat(b, i, h, x1);
    lemma_parse_arr_len_enc(3, b, i);
    lemma_parse_identifier_enc(q.identifier, b, i + h.len());
    lemma_parse_groups_enc(q.student_groups, b, i + h.len() + x1.len());
    lemma_parse_custom_enc(q.custom_name, b, i + h.len() + x1.len() + x2.len());
}

/// An encoded query list parses back to itself.
proof fn lemma_parse_query_list_enc(qs: Seq<CalendarQueryV>, b: Seq<u8>, i: int)
    requires
        forall|k: int| 0 <= k < qs.len() ==> query_encodable(#[trigger] qs[k]),
        seg_at(b, i, enc_query_list(qs)),
    ensures
        parse_query_list(b, i, qs.len()) == Some((qs, i + enc_query_list(qs).len())),
    decreases qs.len(),
{
    if qs.len() == 0 {
        assert(qs =~= Seq::<CalendarQueryV>::empty());
    } else {
        let x = enc_query(qs[0]);
        let rest = qs.drop_first();
        lemma_seg_at_concat(b, i, x, enc_query_list(rest));
        lemma_parse_query_enc(qs[0], b, i);
        assert(forall|k: int| 0 <= k < rest.len() ==> query_encodable(#[trigger] rest[k]));
        lemma_parse_query_list_enc(rest, b, i + x.len());
        assert(seq![qs[0]] + rest =~= qs);
    }
}

/// An encoded legacy query parses back to itself.
proof fn lemma_parse_old_query_enc(q: OldCalendarQueryV, b: Seq<u8>, i: int)
    requires
        old_query_encodable(q),
        seg_at(b, i, enc_old_query(q)),
    ensures
        parse_old_query(b, i) == Some((q, i + enc_old_query(q).len())),
{
    let h = enc_arr_len(2);
    let x1 = enc_identifier(q.identifier);
    let x2 = enc_groups(q.student_groups);
    lemma_seg_at_concat(b, i, h + x1, x2);
    lemma_seg_at_concat(b, i, h, x1);
    lemma_parse_arr_len_enc(2, b, i);
    lemma_parse_identifier_enc(q.identifier, b, i + h.len());
    lemma_parse_groups_enc(q.student_groups, b, i + h.len() + x1.len());
}

/// An encoded legacy query list parses back to itself.
proof fn lemma_parse_old_query_list_enc(qs: Seq<OldCalendarQueryV>, b: Seq<u8>, i: int)
    requires
        forall|k: int| 0 <= k < qs.len() ==> old_query_encodable(#[trigger] qs[k]),
        seg_at(b, i, enc_old_query_list(qs)),
    ensures
        parse_old_query_list(b, i, qs.len()) == Some((qs, i + enc_old_query_list(qs).len())),
    decreases qs.len(),
{
    if qs.len() == 0 {
        assert(qs =~= Seq::<OldCalendarQueryV>::empty());
    } else {
        let x = enc_old_query(qs[0]);
        let rest = qs.drop_first();
        lemma_seg_at_concat(b, i, x, enc_old_query_list(rest));
        lemma_parse_old_query_enc(qs[0], b, i);
        assert(forall|k: int| 0 <= k < rest.len() ==> old_query_encodable(#[trigger] rest[k]));
        lemma_parse_old_query_list_enc(rest, b, i + x.len());
        assert(seq![qs[0]] + rest =~= qs);
    }
}

/// A whole token body in the current schema parses back to its queries.
pub proof fn lemma_parse_queries_enc(qs: Seq<CalendarQueryV>)
    requires
        queries_encodable(qs),
    ensures
        parse_queries(enc_queries(qs)) == Some(qs),
{
    let b = enc_queries(qs);
    let h = enc_arr_len(qs.len() as int);
    assert(b.subrange(0, b.len() as int) =~= b);
    assert(seg_at(b, 0, h + enc_query_list(qs)));
    lemma_seg_at_concat(b, 0, h, enc_query_list(qs));
    lemma_parse_arr_len_enc(qs.len() as int, b, 0);
    lemma_parse_query_list_enc(qs, b, h.len() as int);
}

/// A whole token body in the legacy schema parses back to its queries.
pub proof fn lemma_parse_old_queries_enc(qs: Seq<OldCalendarQueryV>)
    requires
        old_queries_encodable(qs),
    ensures
        parse_old_queries(enc_old_queries(qs)) == Some(qs),
{
    let b = enc_old_queries(qs);
    let h = enc_arr_len(qs.len() as int);
    assert(b.subrange(0, b.len() as int) =~= b);
    assert(seg_at(b, 0, h + enc_old_query_list(qs)));
    lemma_seg_at_concat(b, 0, h, enc_old_query_list(qs));
    lemma_parse_arr_len_enc(qs.len() as int, b, 0);
    lemma_parse_old_query_list_enc(qs, b, h.len() as int);
}

/// A nonempty legacy token body is rejected by the current schema: its first
/// query is a two-element array where the current schema demands three.
proof fn lemma_current_rejects_old(qs: Seq<OldCalendarQueryV>)
    requires
        old_queries_encodable(qs),
        qs.len() > 0,
    ensures
        parse_queries(enc_old_queries(qs)) is None,
{
    let b = enc_old_queries(qs);
    let h = enc_arr_len(qs.len() as int);
    assert(b.subrange(0, b.len() as int) =~= b);
    assert(seg_at(b, 0, h + enc_old_query_list(qs)));
    lemma_seg_at_concat(b, 0, h, enc_old_query_list(qs));
    lemma_parse_arr_len_enc(qs.len() as int, b, 0);
    let j = h.len() as int;
    // The first legacy query opens with a fixarray-of-two byte.
    let q0 = qs[0];
    assert(enc_old_query_list(qs) == enc_old_query(q0) + enc_old_query_list(qs.drop_first()));
    lemma_seg_at_concat(b, j, enc_old_query(q0), enc_old_query_list(qs.drop_first()));
    lemma_seg_at_concat(
        b,
        j,
        enc_arr_len(2) + enc_identifier(q0.identifier),
        enc_groups(q0.student_groups),
    );
    lemma_seg_at_concat(b, j, enc_arr_len(2), enc_identifier(q0.identifier));
    lemma_parse_arr_len_enc(2, b, j);
    assert(parse_query(b, j) is None);
    assert(parse_query_list(b, j, qs.len() as nat) is None);
}

/// Round trip: an encodable list of queries decodes back to exactly itself.
pub proof fn lemma_codec_round_trip(qs: Seq<CalendarQueryV>)
    requires
        queries_encodable(qs),
    ensures
        decode_model(enc_queries(qs)) == Some(qs),
{
    lemma_parse_queries_enc(qs);
}

/// Legacy decode: a token body written in the legacy schema decodes, each
/// query upgraded with the custom name defaulted to absent.
pub proof fn lemma_legacy_decode(qs: Seq<OldCalendarQueryV>)
    requires
        old_queries_encodable(qs),
    ensures
        decode_model(enc_old_queries(qs)) == Some(
            qs.map_values(|o: OldCalendarQueryV| o.upgrade()),
        ),
{
    if qs.len() == 0 {
        assert(enc_old_queries(qs) =~= enc_queries(Seq::<CalendarQueryV>::empty()));
        lemma_parse_queries_enc(Seq::<CalendarQueryV>::empty());
        assert(qs.map_values(|o: OldCalendarQueryV| o.upgrade()) =~= Seq::<
            CalendarQueryV,
        >::empty());
    } else {
        lemma_current_rejects_old(qs);
        lemma_parse_old_queries_enc(qs);
    }
}


// ===========================================================================
// The encoder.
// ===========================================================================

/// Splitting a string list splits its encoding.
proof fn lemma_enc_str_list_append(a: Seq<Seq<char>>, c: Seq<Seq<char>>)
    ensures
        enc_str_list(a + c) == enc_str_list(a) + enc_str_list(c),
    decreases a.len(),
{
    if a.len() == 0 {
        assert(a + c =~= c);
        assert(Seq::<u8>::empty() + enc_str_list(c) =~= enc_str_list(c));
        assert(enc_str_list(a) == Seq::<u8>::empty());
    } else {
        assert((a + c).drop_first() =~= a.drop_first() + c);
        assert((a + c)[0] == a[0]);
        lemma_enc_str_list_append(a.drop_first(), c);
        assert(enc_str(a[0]) + (enc_str_list(a.drop_first()) + enc_str_list(c)) =~= (enc_str(a[0])
            + enc_str_list(a.drop_first())) + enc_str_list(c));
    }
}

/// Splitting a query list splits its encoding.
proof fn lemma_enc_query_list_append(a: Seq<CalendarQueryV>, c: Seq<CalendarQueryV>)
    ensures
        enc_query_list(a + c) == enc_query_list(a) + enc_query_list(c),
    decreases a.len(),
{
    if a.len() == 0 {
        assert(a + c =~= c);
        assert(Seq::<u8>::empty() + enc_query_list(c) =~= enc_query_list(c));
        assert(enc_query_list(a) == Seq::<u8>::empty());
    } else {
        assert((a + c).drop_first() =~= a.drop_first() + c);
        assert((a + c)[0] == a[0]);
        lemma_enc_query_list_append(a.drop_first(), c);
        assert(enc_query(a[0]) + (enc_query_list(a.drop_first()) + enc_query_list(c)) =~= (enc_query(
            a[0],
        ) + enc_query_list(a.drop_first())) + enc_query_list(c));
    }
}

/// Appends every byte of `bytes`.
#[verifier::loop_isolation(false)]
fn push_bytes(buf: &mut Vec<u8>, bytes: &[u8])
    ensures
        final(buf)@ == old(buf)@ + bytes@,
{
    let n = bytes.len();
    let mut k: usize = 0;
    while k < n
        invariant
            k <= n,
            buf@ == old(buf)@ + bytes@.take(k as int),
        decreases n - k,
    {
        buf.push(bytes[k]);
        proof {
            assert(bytes@.take(k + 1) =~= bytes@.take(k as int).push(bytes@[k as int]));
            assert(old(buf)@ + bytes@.take(k as int).push(bytes@[k as int]) =~= (old(buf)@
                + bytes@.take(k as int)).push(bytes@[k as int]));
        }
        k += 1;
    }
    proof {
        assert(bytes@.take(n as int) =~= bytes@);
    }
}

/// Appends an array header; refuses a length the format cannot hold.
fn push_arr_len(buf: &mut Vec<u8>, n: usize) -> (ok: bool)
    ensures
        ok ==> n < 0x100000000 && final(buf)@ == old(buf)@ + enc_arr_len(n as int),
        !ok ==> n >= 0x100000000 && final(buf)@ == old(buf)@,
{
    if (n as u64) >= 0x100000000u64 {
        return false;
    }
    if n < 16 {
        buf.push(0x90u8 + n as u8);
        proof {
            assert(buf@ =~= old(buf)@ + enc_arr_len(n as int));
        }
    } else if n < 65536 {
        buf.push(0xdcu8);
        buf.push(((n / 256) % 256) as u8);
        buf.push((n % 256) as u8);
        proof {
            assert(buf@ =~= old(buf)@ + enc_arr_len(n as int));
        }
    } else {
        buf.push(0xddu8);
        buf.push(((n / 0x1000000) % 256) as u8);
        buf.push(((n / 0x10000) % 256) as u8);
        buf.push(((n / 256) % 256) as u8);
        buf.push((n % 256) as u8);
        proof {
            assert(buf@ =~= old(buf)@ + enc_arr_len(n as int));
        }
    }
    true
}

/// Appends a string header; refuses a length the format cannot hold.
fn push_str_len(buf: &mut Vec<u8>, n: usize) -> (ok: bool)
    ensures
        ok ==> n < 0x100000000 && final(buf)@ == old(buf)@ + enc_str_len(n as int),
        !ok ==> n >= 0x100000000 && final(buf)@ == old(buf)@,
{
    if (n as u64) >= 0x100000000u64 {
        return false;
    }
    if n < 32 {
        buf.push(0xa0u8 + n as u8);
        proof {
            assert(buf@ =~= old(buf)@ + enc_str_len(n as int));
        }
    } else if n < 256 {
        buf.push(0xd9u8);
        buf.push(n as u8);
        proof {
            assert(buf@ =~= old(buf)@ + enc_str_len(n as int));
        }
    } else if n < 65536 {
        buf.push(0xdau8);
        buf.push(((n / 256) % 256) as u8);
        buf.push((n % 256) as u8);
        proof {
            assert(buf@ =~= old(buf)@ + enc_str_len(n as int));
        }
    } else {
        buf.push(0xdbu8);
        buf.push(((n / 0x1000000) % 256) as u8);
        buf.push(((n / 0x10000) % 256) as u8);
        buf.push(((n / 256) % 256) as u8);
        buf.push((n % 256) as u8);
        proof {
            assert(buf@ =~= old(buf)@ + enc_str_len(n as int));
        }
    }
    true
}

/// Appends a string; refuses one whose UTF-8 form the format cannot hold.
fn push_str(buf: &mut Vec<u8>, s: &String) -> (ok: bool)
    ensures
        ok ==> str_encodable(s@) && final(buf)@ == old(buf)@ + enc_str(s@),
        !ok ==> !str_encodable(s@) && final(buf)@ == old(buf)@,
{
    let bytes = s.as_str().as_bytes();
    proof {
        broadcast use vstd::slice::axiom_spec_len;

        assert(bytes@ == encode_utf8(s@));
    }
    let n = bytes.len();
    if !push_str_len(buf, n) {
        return false;
    }
    push_bytes(buf, bytes);
    proof {
        assert(buf@ =~= old(buf)@ + enc_str(s@));
    }
    true
}

/// Appends an integer in its most compact representation.
fn push_int(buf: &mut Vec<u8>, v: i32)
    ensures
        final(buf)@ == old(buf)@ + enc_int(v as int),
{
    let w: i64 = v as i64;
    if 0 <= w && w < 128 {
        buf.push(w as u8);
        proof {
            assert(buf@ =~= old(buf)@ + enc_int(v as int));
        }
    } else if -32 <= w && w < 0 {
        buf.push((w + 256) as u8);
        proof {
            assert(buf@ =~= old(buf)@ + enc_int(v as int));
        }
    } else if 128 <= w && w < 256 {
        buf.push(0xccu8);
        buf.push(w as u8);
        proof {
            assert(buf@ =~= old(buf)@ + enc_int(v as int));
        }
    } else if 256 <= w && w < 65536 {
        buf.push(0xcdu8);
        buf.push(((w / 256) % 256) as u8);
        buf.push((w % 256) as u8);
        proof {
            assert(buf@ =~= old(buf)@ + enc_int(v as int));
        }
    } else if 65536 <= w {
        buf.push(0xceu8);
        buf.push(((w / 0x1000000) % 256) as u8);
        buf.push(((w / 0x10000) % 256) as u8);
        buf.push(((w / 256) % 256) as u8);
        buf.push((w % 256) as u8);
        proof {
            assert(buf@ =~= old(buf)@ + enc_int(v as int));
        }
    } else if -128 <= w && w < -32 {
        buf.push(0xd0u8);
        buf.push((w + 256) as u8);
        proof {
            assert(buf@ =~= old(buf)@ + enc_int(v as int));
        }
    } else if -32768 <= w && w < -128 {
        let x = w + 65536;
        buf.push(0xd1u8);
        buf.push(((x / 256) % 256) as u8);
        buf.push((x % 256) as u8);
        proof {
            assert(buf@ =~= old(buf)@ + enc_int(v as int));
        }
    } else {
        let x = w + 0x100000000;
        buf.push(0xd2u8);
        buf.push(((x / 0x1000000) % 256) as u8);
        buf.push(((x / 0x10000) % 256) as u8);
        buf.push(((x / 256) % 256) as u8);
        buf.push((x % 256) as u8);
        proof {
            assert(buf@ =~= old(buf)@ + enc_int(v as int));
        }
    }
}

/// Appends a course identifier.
fn push_identifier(buf: &mut Vec<u8>, c: &CourseIdentifier) -> (ok: bool)
    ensures
        ok ==> identifier_encodable(c@) && final(buf)@ == old(buf)@ + enc_identifier(c@),
        !ok ==> !identifier_encodable(c@),
{
    let ok0 = push_arr_len(buf, 3);
    assert(ok0);
    if !push_str(buf, &c.course_code) {
        return false;
    }
    push_int(buf, c.course_term);
    if !push_str(buf, &c.semester) {
        return false;
    }
    proof {
        assert(buf@ =~= old(buf)@ + enc_identifier(c@));
    }
    true
}

/// Appends a student-group list.
#[verifier::loop_isolation(false)]
fn push_groups(buf: &mut Vec<u8>, groups: &Vec<String>) -> (ok: bool)
    ensures
        ok ==> groups_encodable(groups.deep_view()) && final(buf)@ == old(buf)@ + enc_groups(
            groups.deep_view(),
        ),
        !ok ==> !groups_encodable(groups.deep_view()),
{
    let ghost gv = groups.deep_view();
    if !push_arr_len(buf, groups.len()) {
        return false;
    }
    let ghost base = buf@;
    let mut k: usize = 0;
    while k < groups.len()
        invariant
            k <= groups.len(),
            buf@ == base + enc_str_list(gv.take(k as int)),
            forall|t: int| 0 <= t < k ==> str_encodable(#[trigger] gv[t]),
        decreases groups.len() - k,
    {
        if !push_str(buf, &groups[k]) {
            proof {
                assert(gv[k as int] == groups@[k as int]@);
                assert(!groups_encodable(gv));
            }
            return false;
        }
        proof {
            assert(gv[k as int] == groups@[k as int]@);
            lemma_enc_str_list_append(gv.take(k as int), seq![gv[k as int]]);
            assert(gv.take(k + 1) =~= gv.take(k as int) + seq![gv[k as int]]);
            assert(seq![gv[k as int]].drop_first() =~= Seq::<Seq<char>>::empty());
            assert(enc_str_list(Seq::<Seq<char>>::empty()) == Seq::<u8>::empty());
            assert(enc_str_list(seq![gv[k as int]]) =~= enc_str(gv[k as int]));
            assert(buf@ =~= base + enc_str_list(gv.take(k + 1)));
        }
        k += 1;
    }
    proof {
        assert(gv.take(groups@.len() as int) =~= gv);
        assert(buf@ =~= old(buf)@ + enc_groups(gv));
    }
    true
}

/// Appends one calendar query.
fn push_query(buf: &mut Vec<u8>, q: &CalendarQuery) -> (ok: bool)
    ensures
        ok ==> query_encodable(q@) && final(buf)@ == old(buf)@ + enc_query(q@),
        !ok ==> !query_encodable(q@),
{
    let ok0 = push_arr_len(buf, 3);
    assert(ok0);
    if !push_identifier(buf, &q.identifier) {
        return false;
    }
    if !push_groups(buf, &q.student_groups) {
        return false;
    }
    match &q.custom_name {
        None => {
            buf.push(0xc0u8);
        },
        Some(s) => {
            if !push_str(buf, s) {
                return false;
            }
        },
    }
    proof {
        assert(buf@ =~= old(buf)@ + enc_query(q@));
    }
    true
}

/// Lays a query list down in the token byte format, or reports that a length
/// in it does not fit the format.
#[verifier::loop_isolation(false)]
pub fn encode_queries(queries: &Vec<CalendarQuery>) -> (r: Result<Vec<u8>, AppError>)
    ensures
        match r {
            Ok(b) => queries_encodable(queries.deep_view()) && b@ == enc_queries(
                queries.deep_view(),
            ),
            Err(e) => e == AppError::CodecError && !queries_encodable(queries.deep_view()),
        },
{
    let ghost qv = queries.deep_view();
    let mut buf: Vec<u8> = Vec::new();
    if !push_arr_len(&mut buf, queries.len()) {
        return Err(AppError::CodecError);
    }
    let ghost base = buf@;
    let mut k: usize = 0;
    while k < queries.len()
        invariant
            k <= queries.len(),
            buf@ == base + enc_query_list(qv.take(k as int)),
            forall|t: int| 0 <= t < k ==> query_encodable(#[trigger] qv[t]),
        decreases queries.len() - k,
    {
        if !push_query(&mut buf, &queries[k]) {
            proof {
                assert(qv[k as int] == queries@[k as int]@);
                assert(!queries_encodable(qv));
            }
            return Err(AppError::CodecError);
        }
        proof {
            assert(qv[k as int] == queries@[k as int]@);
            lemma_enc_query_list_append(qv.take(k as int), seq![qv[k as int]]);
            assert(qv.take(k + 1) =~= qv.take(k as int) + seq![qv[k as int]]);
            assert(seq![qv[k as int]].drop_first() =~= Seq::<CalendarQueryV>::empty());
            assert(enc_query_list(Seq::<CalendarQueryV>::empty()) == Seq::<u8>::empty());
            assert(enc_query_list(seq![qv[k as int]]) =~= enc_query(qv[k as int]));
            assert(buf@ =~= base + enc_query_list(qv.take(k + 1)));
        }
        k += 1;
    }
    proof {
        assert(qv.take(queries@.len() as int) =~= qv);
        assert(buf@ =~= enc_queries(qv));
    }
    Ok(buf)
}


// ===========================================================================
// The decoder.
// ===========================================================================

/// Relies on `String::from_utf8`: it succeeds exactly on valid UTF-8 and
/// decodes it, in the sense of vstd's model of UTF-8.
#[verifier::external_body]
fn string_from_utf8(bytes: Vec<u8>) -> (r: Option<String>)
    ensures
        match r {
            Some(s) => valid_utf8(bytes@) && s@ == decode_utf8(bytes@),
            None => !valid_utf8(bytes@),
        },
{
    String::from_utf8(bytes).ok()
}

/// Reads an array header.
fn read_arr_len(b: &Vec<u8>, i: usize) -> (r: Option<(u64, usize)>)
    ensures
        match r {
            Some((n, j)) => {
                &&& parse_arr_len(b@, i as int) == Some((n as int, j as int))
                &&& i < j <= b@.len()
                &&& n < 0x100000000
            },
            None => parse_arr_len(b@, i as int) is None,
        },
{
    if i >= b.len() {
        return None;
    }
    let m = b[i];
    if 0x90 <= m && m <= 0x9f {
        Some(((m - 0x90) as u64, i + 1))
    } else if m == 0xdc {
        if b.len() - i < 3 {
            return None;
        }
        let n = (b[i + 1] as u64) * 256 + (b[i + 2] as u64);
        if n >= 16 {
            Some((n, i + 3))
        } else {
            None
        }
    } else if m == 0xdd {
        if b.len() - i < 5 {
            return None;
        }
        let n = (b[i + 1] as u64) * 0x1000000 + (b[i + 2] as u64) * 0x10000 + (b[i + 3] as u64)
            * 256 + (b[i + 4] as u64);
        if n >= 65536 {
            Some((n, i + 5))
        } else {
            None
        }
    } else {
        None
    }
}

/// Reads a string header.
fn read_str_len(b: &Vec<u8>, i: usize) -> (r: Option<(u64, usize)>)
    ensures
        match r {
            Some((n, j)) => {
                &&& parse_str_len(b@, i as int) == Some((n as int, j as int))
                &&& i < j <= b@.len()
                &&& n < 0x100000000
            },
            None => parse_str_len(b@, i as int) is None,
        },
{
    if i >= b.len() {
        return None;
    }
    let m = b[i];
    if 0xa0 <= m && m <= 0xbf {
        Some(((m - 0xa0) as u64, i + 1))
    } else if m == 0xd9 {
        if b.len() - i < 2 {
            return None;
        }
        let n = b[i + 1];
        if n >= 32 {
            Some((n as u64, i + 2))
        } else {
            None
        }
    } else if m == 0xda {
        if b.len() - i < 3 {
            return None;
        }
        let n = (b[i + 1] as u64) * 256 + (b[i + 2] as u64);
        if n >= 256 {
            Some((n, i + 3))
        } else {
            None
        }
    } else if m == 0xdb {
        if b.len() - i < 5 {
            return None;
        }
        let n = (b[i + 1] as u64) * 0x1000000 + (b[i + 2] as u64) * 0x10000 + (b[i + 3] as u64)
            * 256 + (b[i + 4] as u64);
        if n >= 65536 {
            Some((n, i + 5))
        } else {
            None
        }
    } else {
        None
    }
}

/// Reads a string.
fn read_str(b: &Vec<u8>, i: usize) -> (r: Option<(String, usize)>)
    ensures
        match r {
            Some((s, j)) => {
                &&& parse_str(b@, i as int) == Some((s@, j as int))
                &&& i < j <= b@.len()
            },
            None => parse_str(b@, i as int) is None,
        },
{
    let (n, j) = match read_str_len(b, i) {
        Some(p) => p,
        None => {
            return None;
        },
    };
    if n > (b.len() - j) as u64 {
        return None;
    }
    let n_us = n as usize;
    let seg = vstd::slice::slice_to_vec(vstd::slice::slice_subrange(b.as_slice(), j, j + n_us));
    match string_from_utf8(seg) {
        Some(s) => Some((s, j + n_us)),
        None => None,
    }
}

/// Reads an integer in the 32-bit signed range.
fn read_int(b: &Vec<u8>, i: usize) -> (r: Option<(i32, usize)>)
    ensures
        match r {
            Some((v, j)) => {
                &&& parse_int(b@, i as int) == Some((v as int, j as int))
                &&& i < j <= b@.len()
            },
            None => parse_int(b@, i as int) is None,
        },
{
    if i >= b.len() {
        return None;
    }
    let m = b[i];
    if m < 0x80 {
        Some((m as i32, i + 1))
    } else if m >= 0xe0 {
        Some((m as i32 - 256, i + 1))
    } else if m == 0xcc {
        if b.len() - i < 2 {
            return None;
        }
        let v = b[i + 1];
        if v >= 128 {
            Some((v as i32, i + 2))
        } else {
            None
        }
    } else if m == 0xcd {
        if b.len() - i < 3 {
            return None;
        }
        let v = (b[i + 1] as u32) * 256 + (b[i + 2] as u32);
        if v >= 256 {
            Some((v as i32, i + 3))
        } else {
            None
        }
    } else if m == 0xce {
        if b.len() - i < 5 {
            return None;
        }
        let v = (b[i + 1] as u64) * 0x1000000 + (b[i + 2] as u64) * 0x10000 + (b[i + 3] as u64)
            * 256 + (b[i + 4] as u64);
        if 65536 <= v && v < 0x80000000 {
            Some((v as i32, i + 5))
        } else {
            None
        }
    } else if m == 0xd0 {
        if b.len() - i < 2 {
            return None;
        }
        let v = b[i + 1];
        if 128 <= v && v < 224 {
            Some((v as i32 - 256, i + 2))
        } else {
            None
        }
    } else if m == 0xd1 {
        if b.len() - i < 3 {
            return None;
        }
        let v = (b[i + 1] as u32) * 256 + (b[i + 2] as u32);
        if 32768 <= v && v < 65408 {
            Some((v as i32 - 65536, i + 3))
        } else {
            None
        }
    } else if m == 0xd2 {
        if b.len() - i < 5 {
            return None;
        }
        let v = (b[i + 1] as u64) * 0x1000000 + (b[i + 2] as u64) * 0x10000 + (b[i + 3] as u64)
            * 256 + (b[i + 4] as u64);
        if 0x80000000 <= v && v < 0xFFFF8000 {
            let w: i64 = v as i64 - 0x100000000;
            Some((w as i32, i + 5))
        } else {
            None
        }
    } else {
        None
    }
}

/// Reads an optional custom name.
fn read_custom(b: &Vec<u8>, i: usize) -> (r: Option<(Option<String>, usize)>)
    ensures
        match r {
            Some((c, j)) => {
                &&& parse_custom(b@, i as int) == Some(
                    (
                        match c {
                            Some(ref s) => Some(s@),
                            None => None,
                        },
                        j as int,
                    ),
                )
                &&& i < j <= b@.len()
            },
            None => parse_custom(b@, i as int) is None,
        },
{
    if i < b.len() && b[i] == 0xc0 {
        return Some((None, i + 1));
    }
    match read_str(b, i) {
        Some((s, j)) => Some((Some(s), j)),
        None => None,
    }
}

/// Reads a course identifier.
fn read_identifier(b: &Vec<u8>, i: usize) -> (r: Option<(CourseIdentifier, usize)>)
    ensures
        match r {
            Some((c, j)) => {
                &&& parse_identifier(b@, i as int) == Some((c@, j as int))
                &&& i < j <= b@.len()
            },
            None => parse_identifier(b@, i as int) is None,
        },
{
    let (n, j0) = match read_arr_len(b, i) {
        Some(p) => p,
        None => {
            return None;
        },
    };
    if n != 3 {
        return None;
    }
    let (course_code, j1) = match read_str(b, j0) {
        Some(p) => p,
        None => {
            return None;
        },
    };
    let (course_term, j2) = match read_int(b, j1) {
        Some(p) => p,
        None => {
            return None;
        },
    };
    let (semester, j3) = match read_str(b, j2) {
        Some(p) => p,
        None => {
            return None;
        },
    };
    Some((CourseIdentifier { course_code, course_term, semester }, j3))
}

/// Reads a student-group list.
#[verifier::loop_isolation(false)]
fn read_groups(b: &Vec<u8>, i: usize) -> (r: Option<(Vec<String>, usize)>)
    ensures
        match r {
            Some((v, j)) => {
                &&& parse_groups(b@, i as int) == Some((v.deep_view(), j as int))
                &&& i < j <= b@.len()
            },
            None => parse_groups(b@, i as int) is None,
        },
{
    let (n, j0) = match read_arr_len(b, i) {
        Some(p) => p,
        None => {
            return None;
        },
    };
    let mut acc: Vec<String> = Vec::new();
    let mut cur: usize = j0;
    let mut k: u64 = 0;
    while k < n
        invariant
            k <= n,
            i < cur <= b@.len(),
            parse_str_list(b@, j0 as int, n as nat) == (match parse_str_list(
                b@,
                cur as int,
                (n - k) as nat,
            ) {
                None => None::<(Seq<Seq<char>>, int)>,
                Some((rest, e)) => Some((acc.deep_view() + rest, e)),
            }),
        decreases n - k,
    {
        let (s, j1) = match read_str(b, cur) {
            Some(p) => p,
            None => {
                proof {
                    assert(parse_str_list(b@, cur as int, (n - k) as nat) is None);
                }
                return None;
            },
        };
        proof {
            let tail = parse_str_list(b@, j1 as int, (n - k - 1) as nat);
            assert(parse_str_list(b@, cur as int, (n - k) as nat) == (match tail {
                None => None::<(Seq<Seq<char>>, int)>,
                Some((rest, e)) => Some((seq![s@] + rest, e)),
            }));
        }
        let ghost acc_dv = acc.deep_view();
        acc.push(s);
        proof {
            assert(acc.deep_view() =~= acc_dv.push(s@));
            let tail = parse_str_list(b@, j1 as int, (n - k - 1) as nat);
            if tail is Some {
                let rest = tail->Some_0.0;
                assert(acc_dv + (seq![s@] + rest) =~= acc_dv.push(s@) + rest);
            }
        }
        cur = j1;
        k += 1;
    }
    proof {
        assert(parse_str_list(b@, cur as int, (n - k) as nat) == Some(
            (Seq::<Seq<char>>::empty(), cur as int),
        ));
        assert(acc.deep_view() + Seq::<Seq<char>>::empty() =~= acc.deep_view());
    }
    Some((acc, cur))
}

/// Reads one calendar query in the current schema.
fn read_query(b: &Vec<u8>, i: usize) -> (r: Option<(CalendarQuery, usize)>)
    ensures
        match r {
            Some((q, j)) => {
                &&& parse_query(b@, i as int) == Some((q@, j as int))
                &&& i < j <= b@.len()
            },
            None => parse_query(b@, i as int) is None,
        },
{
    let (n, j0) = match read_arr_len(b, i) {
        Some(p) => p,
        None => {
            return None;
        },
    };
    if n != 3 {
        return None;
    }
    let (identifier, j1) = match read_identifier(b, j0) {
        Some(p) => p,
        None => {
            return None;
        },
    };
    let (student_groups, j2) = match read_groups(b, j1) {
        Some(p) => p,
        None => {
            return None;
        },
    };
    let (custom_name, j3) = match read_custom(b, j2) {
        Some(p) => p,
        None => {
            return None;
        },
    };
    Some((CalendarQuery { identifier, student_groups, custom_name }, j3))
}

/// Reads one calendar query in the legacy schema.
fn read_old_query(b: &Vec<u8>, i: usize) -> (r: Option<(OldCalendarQuery, usize)>)
    ensures
        match r {
            Some((q, j)) => {
                &&& parse_old_query(b@, i as int) == Some((q@, j as int))
                &&& i < j <= b@.len()
            },
            None => parse_old_query(b@, i as int) is None,
        },
{
    let (n, j0) = match read_arr_len(b, i) {
        Some(p) => p,
        None => {
            return None;
        },
    };
    if n != 2 {
        return None;
    }
    let (identifier, j1) = match read_identifier(b, j0) {
        Some(p) => p,
        None => {
            return None;
        },
    };
    let (student_groups, j2) = match read_groups(b, j1) {
        Some(p) => p,
        None => {
            return None;
        },
    };
    Some((OldCalendarQuery { identifier, student_groups }, j2))
}

/// Reads a whole token body in the current schema.
#[verifier::loop_isolation(false)]
fn read_queries(b: &Vec<u8>) -> (r: Option<Vec<CalendarQuery>>)
    ensures
        match r {
            Some(v) => parse_queries(b@) == Some(v.deep_view()),
            None => parse_queries(b@) is None,
        },
{
    let (n, j0) = match read_arr_len(b, 0) {
        Some(p) => p,
        None => {
            return None;
        },
    };
    let mut acc: Vec<CalendarQuery> = Vec::new();
    let mut cur: usize = j0;
    let mut k: u64 = 0;
    while k < n
        invariant
            k <= n,
            cur <= b@.len(),
            parse_query_list(b@, j0 as int, n as nat) == (match parse_query_list(
                b@,
                cur as int,
                (n - k) as nat,
            ) {
                None => None::<(Seq<CalendarQueryV>, int)>,
                Some((rest, e)) => Some((acc.deep_view() + rest, e)),
            }),
        decreases n - k,
    {
        let (q, j1) = match read_query(b, cur) {
            Some(p) => p,
            None => {
                proof {
                    assert(parse_query_list(b@, cur as int, (n - k) as nat) is None);
                }
                return None;
            },
        };
        proof {
            let tail = parse_query_list(b@, j1 as int, (n - k - 1) as nat);
            assert(parse_query_list(b@, cur as int, (n - k) as nat) == (match tail {
                None => None::<(Seq<CalendarQueryV>, int)>,
                Some((rest, e)) => Some((seq![q@] + rest, e)),
            }));
        }
        let ghost acc_dv = acc.deep_view();
        acc.push(q);
        proof {
            assert(acc.deep_view() =~= acc_dv.push(q@));
            let tail = parse_query_list(b@, j1 as int, (n - k - 1) as nat);
            if tail is Some {
                let rest = tail->Some_0.0;
                assert(acc_dv + (seq![q@] + rest) =~= acc_dv.push(q@) + rest);
            }
        }
        cur = j1;
        k += 1;
    }
    proof {
        assert(parse_query_list(b@, cur as int, (n - k) as nat) == Some(
            (Seq::<CalendarQueryV>::empty(), cur as int),
        ));
        assert(acc.deep_view() + Seq::<CalendarQueryV>::empty() =~= acc.deep_view());
    }
    if cur != b.len() {
        return None;
    }
    Some(acc)
}

/// Reads a whole token body in the legacy schema.
#[verifier::loop_isolation(false)]
fn read_old_queries(b: &Vec<u8>) -> (r: Option<Vec<OldCalendarQuery>>)
    ensures
        match r {
            Some(v) => parse_old_queries(b@) == Some(v.deep_view()),
            None => parse_old_queries(b@) is None,
        },
{
    let (n, j0) = match read_arr_len(b, 0) {
        Some(p) => p,
        None => {
            return None;
        },
    };
    let mut acc: Vec<OldCalendarQuery> = Vec::new();
    let mut cur: usize = j0;
    let mut k: u64 = 0;
    while k < n
        invariant
            k <= n,
            cur <= b@.len(),
            parse_old_query_list(b@, j0 as int, n as nat) == (match parse_old_query_list(
                b@,
                cur as int,
                (n - k) as nat,
            ) {
                None => None::<(Seq<OldCalendarQueryV>, int)>,
                Some((rest, e)) => Some((acc.deep_view() + rest, e)),
            }),
        decreases n - k,
    {
        let (q, j1) = match read_old_query(b, cur) {
            Some(p) => p,
            None => {
                proof {
                    assert(parse_old_query_list(b@, cur as int, (n - k) as nat) is None);
                }
                return None;
            },
        };
        proof {
            let tail = parse_old_query_list(b@, j1 as int, (n - k - 1) as nat);
            assert(parse_old_query_list(b@, cur as int, (n - k) as nat) == (match tail {
                None => None::<(Seq<OldCalendarQueryV>, int)>,
                Some((rest, e)) => Some((seq![q@] + rest, e)),
            }));
        }
        let ghost acc_dv = acc.deep_view();
        acc.push(q);
        proof {
            assert(acc.deep_view() =~= acc_dv.push(q@));
            let tail = parse_old_query_list(b@, j1 as int, (n - k - 1) as nat);
            if tail is Some {
                let rest = tail->Some_0.0;
                assert(acc_dv + (seq![q@] + rest) =~= acc_dv.push(q@) + rest);
            }
        }
        cur = j1;
        k += 1;
    }
    proof {
        assert(parse_old_query_list(b@, cur as int, (n - k) as nat) == Some(
            (Seq::<OldCalendarQueryV>::empty(), cur as int),
        ));
        assert(acc.deep_view() + Seq::<OldCalendarQueryV>::empty() =~= acc.deep_view());
    }
    if cur != b.len() {
        return None;
    }
    Some(acc)
}

/// Upgrades every legacy query, defaulting the custom name to absent.
#[verifier::loop_isolation(false)]
fn upgrade_all(olds: Vec<OldCalendarQuery>) -> (r: Vec<CalendarQuery>)
    ensures
        r.deep_view() == olds.deep_view().map_values(|o: OldCalendarQueryV| o.upgrade()),
{
    let ghost orig = olds.deep_view();
    let mut rest = olds;
    let mut out: Vec<CalendarQuery> = Vec::new();
    while rest.len() > 0
        invariant
            out@.len() + rest@.len() == orig.len(),
            out.deep_view() == orig.take(out@.len() as int).map_values(
                |o: OldCalendarQueryV| o.upgrade(),
            ),
            rest.deep_view() == orig.skip(out@.len() as int),
        decreases rest.len(),
    {
        let ghost done = out@.len() as int;
        let ghost rest0 = rest@;
        let ghost out_dv = out.deep_view();
        let o = rest.remove(0);
        proof {
            assert(o.deep_view() == rest0[0].deep_view());
            assert(rest0[0].deep_view() == orig.skip(done)[0]);
            assert(o@ == orig[done]);
            assert forall|t: int| 0 <= t < rest@.len() implies rest.deep_view()[t] == orig.skip(
                done + 1,
            )[t] by {
                assert(rest@[t] == rest0.remove(0)[t]);
                assert(rest0.remove(0)[t] == rest0[t + 1]);
                assert(rest@[t].deep_view() == orig.skip(done)[t + 1]);
            }
            assert(rest.deep_view() =~= orig.skip(done + 1));
        }
        out.push(o.upgrade());
        proof {
            let f = |ov: OldCalendarQueryV| ov.upgrade();
            assert forall|t: int| 0 <= t < done + 1 implies out.deep_view()[t] == orig.take(
                done + 1,
            ).map_values(f)[t] by {
                if t < done {
                    assert(out.deep_view()[t] == out_dv[t]);
                    assert(out_dv[t] == orig.take(done).map_values(f)[t]);
                    assert(orig.take(done).map_values(f)[t] == f(orig[t]));
                    assert(orig.take(done + 1).map_values(f)[t] == f(orig[t]));
                } else {
                    assert(out.deep_view()[t] == o@.upgrade());
                    assert(orig.take(done + 1).map_values(f)[t] == f(orig[done]));
                }
            }
            assert(out.deep_view() =~= orig.take(done + 1).map_values(f));
        }
    }
    proof {
        assert(orig.take(out@.len() as int) =~= orig);
    }
    out
}

/// Decodes a token body: the current schema where it fits, else the legacy
/// schema with the custom name defaulted to absent.
pub fn decode_queries(b: &Vec<u8>) -> (r: Option<Vec<CalendarQuery>>)
    ensures
        match r {
            Some(v) => decode_model(b@) == Some(v.deep_view()),
            None => decode_model(b@) is None,
        },
{
    match read_queries(b) {
        Some(v) => Some(v),
        None => match read_old_queries(b) {
            Some(olds) => Some(upgrade_all(olds)),
            None => None,
        },
    }
}

} // verus!
