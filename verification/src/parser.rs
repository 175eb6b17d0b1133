//! The reply grammar: its specification over byte sequences and the
//! executable scanner proved to match it, together with the laws that make
//! incremental parsing agree with parsing a whole line at once.

use vstd::prelude::*;

use crate::protocol::{
    spec_dec_u8, spec_hex_bytes, spec_hex_digit, spec_hex_pair, tok_at_recv, tok_au915, tok_as923,
    tok_crlf, tok_error, tok_eu868, tok_in865, tok_initialized, tok_kr920, tok_ok, tok_us915,
    EventCode, FirmwareInfo, LoraRegion, ReplyModel, Response,
};

verus! {

// ---------------------------------------------------------------------------
// Specification of the reply grammar. A reply line is matched from the front
// of the accumulated bytes; matching is incremental: `Incomplete` means the
// bytes so far are a proper prefix of a possible match and more bytes may
// decide, `Mismatch` means no extension of the bytes can ever match.
// ---------------------------------------------------------------------------

/// Outcome of matching one grammar element at a position: the element's
/// value together with the position just past it, a definite mismatch, or
/// not enough bytes to decide.
pub enum SpecStep<T> {
    Got(T, int),
    Mismatch,
    Incomplete,
}

/// Match the literal token `t` at position `i`.
pub open spec fn spec_tag(s: Seq<u8>, i: int, t: Seq<u8>) -> SpecStep<()>
    recommends
        0 <= i <= s.len(),
{
    if i + t.len() <= s.len() {
        if s.subrange(i, i + t.len() as int) == t {
            SpecStep::Got((), i + t.len() as int)
        } else {
            SpecStep::Mismatch
        }
    } else {
        if s.subrange(i, s.len() as int) == t.subrange(0, s.len() - i) {
            SpecStep::Incomplete
        } else {
            SpecStep::Mismatch
        }
    }
}

/// Match the token `t` if it is there; the boolean says whether it was.
/// An optional element never mismatches, but it can be undecided.
pub open spec fn spec_opt_tag(s: Seq<u8>, i: int, t: Seq<u8>) -> SpecStep<bool>
    recommends
        0 <= i <= s.len(),
{
    match spec_tag(s, i, t) {
        SpecStep::Got(_, j) => SpecStep::Got(true, j),
        SpecStep::Mismatch => SpecStep::Got(false, i),
        SpecStep::Incomplete => SpecStep::Incomplete,
    }
}

/// An ASCII decimal digit.
pub open spec fn spec_is_digit(b: u8) -> bool {
    48 <= b <= 57
}

/// Position of the first non-digit at or after `i`.
pub open spec fn spec_digits_end(s: Seq<u8>, i: int) -> int
    recommends
        0 <= i <= s.len(),
    decreases s.len() - i when 0 <= i <= s.len()
{
    if i >= s.len() {
        i
    } else if !spec_is_digit(s[i]) {
        i
    } else {
        spec_digits_end(s, i + 1)
    }
}

/// Value of the decimal digits `s[i..j]`, most significant first.
pub open spec fn spec_dec_value(s: Seq<u8>, i: int, j: int) -> int
    recommends
        0 <= i <= j <= s.len(),
    decreases j - i when i <= j
{
    if j <= i {
        0
    } else {
        spec_dec_value(s, i, j - 1) * 10 + (s[j - 1] - 48)
    }
}

/// Match one or more decimal digits whose value fits in a byte. The digit
/// run must be ended by a byte that is not a digit: a run that reaches the
/// end of the input is not yet decided.
pub open spec fn spec_number(s: Seq<u8>, i: int) -> SpecStep<u8>
    recommends
        0 <= i <= s.len(),
{
    if i >= s.len() {
        SpecStep::Incomplete
    } else if !spec_is_digit(s[i]) {
        SpecStep::Mismatch
    } else {
        let j = spec_digits_end(s, i);
        if j == s.len() {
            SpecStep::Incomplete
        } else if spec_dec_value(s, i, j) <= 255 {
            SpecStep::Got(spec_dec_value(s, i, j) as u8, j)
        } else {
            SpecStep::Mismatch
        }
    }
}

/// An ASCII lowercase hexadecimal digit, and its value.
pub open spec fn spec_hex_val(b: u8) -> Option<u8> {
    if 48 <= b <= 57 {
        Some((b - 48) as u8)
    } else if 97 <= b <= 102 {
        Some((b - 87) as u8)
    } else {
        None
    }
}

/// Match exactly `n` bytes written as `2 * n` lowercase hexadecimal digits.
pub open spec fn spec_hex_seq(s: Seq<u8>, i: int, n: nat) -> SpecStep<Seq<u8>>
    recommends
        0 <= i <= s.len(),
    decreases n,
{
    if n == 0 {
        SpecStep::Got(Seq::empty(), i)
    } else if i >= s.len() {
        SpecStep::Incomplete
    } else if spec_hex_val(s[i]) is None {
        SpecStep::Mismatch
    } else if i + 1 >= s.len() {
        SpecStep::Incomplete
    } else if spec_hex_val(s[i + 1]) is None {
        SpecStep::Mismatch
    } else {
        let b = (spec_hex_val(s[i]).unwrap() * 16 + spec_hex_val(s[i + 1]).unwrap()) as u8;
        match spec_hex_seq(s, i + 2, (n - 1) as nat) {
            SpecStep::Got(rest, j) => SpecStep::Got(seq![b] + rest, j),
            SpecStep::Mismatch => SpecStep::Mismatch,
            SpecStep::Incomplete => SpecStep::Incomplete,
        }
    }
}

/// Match one of the six region tokens.
pub open spec fn spec_region_token(s: Seq<u8>, i: int) -> SpecStep<LoraRegion>
    recommends
        0 <= i <= s.len(),
{
    match spec_tag(s, i, tok_eu868()) {
        SpecStep::Got(_, j) => SpecStep::Got(LoraRegion::EU868, j),
        SpecStep::Incomplete => SpecStep::Incomplete,
        SpecStep::Mismatch => match spec_tag(s, i, tok_us915()) {
            SpecStep::Got(_, j) => SpecStep::Got(LoraRegion::US915, j),
            SpecStep::Incomplete => SpecStep::Incomplete,
            SpecStep::Mismatch => match spec_tag(s, i, tok_au915()) {
                SpecStep::Got(_, j) => SpecStep::Got(LoraRegion::AU915, j),
                SpecStep::Incomplete => SpecStep::Incomplete,
                SpecStep::Mismatch => match spec_tag(s, i, tok_kr920()) {
                    SpecStep::Got(_, j) => SpecStep::Got(LoraRegion::KR920, j),
                    SpecStep::Incomplete => SpecStep::Incomplete,
                    SpecStep::Mismatch => match spec_tag(s, i, tok_as923()) {
                        SpecStep::Got(_, j) => SpecStep::Got(LoraRegion::AS923, j),
                        SpecStep::Incomplete => SpecStep::Incomplete,
                        SpecStep::Mismatch => match spec_tag(s, i, tok_in865()) {
                            SpecStep::Got(_, j) => SpecStep::Got(LoraRegion::IN865, j),
                            SpecStep::Incomplete => SpecStep::Incomplete,
                            SpecStep::Mismatch => SpecStep::Mismatch,
                        },
                    },
                },
            },
        },
    }
}

/// The event named by a wire code: 0 joined, 1 unconfirmed sent,
/// 2 confirmed sent, 3 data received.
pub open spec fn spec_event_code(n: u8) -> Option<EventCode> {
    if n == 0 {
        Some(EventCode::JoinedSuccess)
    } else if n == 1 {
        Some(EventCode::TxUnconfirmed)
    } else if n == 2 {
        Some(EventCode::TxConfirmed)
    } else if n == 3 {
        Some(EventCode::RecvData)
    } else {
        None
    }
}

/// "OK\r\n", with up to two leading "\r\n" pairs tolerated.
pub open spec fn spec_alt_ok(s: Seq<u8>) -> SpecStep<ReplyModel> {
    match spec_opt_tag(s, 0, tok_crlf()) {
        SpecStep::Incomplete => SpecStep::Incomplete,
        SpecStep::Mismatch => SpecStep::Mismatch,
        SpecStep::Got(_, i1) => match spec_opt_tag(s, i1, tok_crlf()) {
            SpecStep::Incomplete => SpecStep::Incomplete,
            SpecStep::Mismatch => SpecStep::Mismatch,
            SpecStep::Got(_, i2) => match spec_tag(s, i2, tok_ok()) {
                SpecStep::Incomplete => SpecStep::Incomplete,
                SpecStep::Mismatch => SpecStep::Mismatch,
                SpecStep::Got(_, i3) => match spec_tag(s, i3, tok_crlf()) {
                    SpecStep::Incomplete => SpecStep::Incomplete,
                    SpecStep::Mismatch => SpecStep::Mismatch,
                    SpecStep::Got(_, i4) => SpecStep::Got(ReplyModel::OK, i4),
                },
            },
        },
    }
}

/// The signed error code held by an optional minus sign and a digit run,
/// if it fits in a signed byte.
pub open spec fn spec_error_code(negative: bool, value: u8) -> Option<i8> {
    if negative {
        if value <= 128 {
            Some((-(value as int)) as i8)
        } else {
            None
        }
    } else {
        if value <= 127 {
            Some(value as i8)
        } else {
            None
        }
    }
}

/// "ERROR[-]<digits>\r\n", with up to two leading "\r\n" pairs tolerated;
/// the code, sign applied, must be in range of a signed byte.
pub open spec fn spec_alt_error(s: Seq<u8>) -> SpecStep<ReplyModel> {
    match spec_opt_tag(s, 0, tok_crlf()) {
        SpecStep::Incomplete => SpecStep::Incomplete,
        SpecStep::Mismatch => SpecStep::Mismatch,
        SpecStep::Got(_, i1) => match spec_opt_tag(s, i1, tok_crlf()) {
            SpecStep::Incomplete => SpecStep::Incomplete,
            SpecStep::Mismatch => SpecStep::Mismatch,
            SpecStep::Got(_, i2) => match spec_tag(s, i2, tok_error()) {
                SpecStep::Incomplete => SpecStep::Incomplete,
                SpecStep::Mismatch => SpecStep::Mismatch,
                SpecStep::Got(_, i3) => match spec_opt_tag(s, i3, seq![45u8]) {
                    SpecStep::Incomplete => SpecStep::Incomplete,
                    SpecStep::Mismatch => SpecStep::Mismatch,
                    SpecStep::Got(negative, i4) => match spec_number(s, i4) {
                        SpecStep::Incomplete => SpecStep::Incomplete,
                        SpecStep::Mismatch => SpecStep::Mismatch,
                        SpecStep::Got(value, i5) => match spec_error_code(negative, value) {
                            None => SpecStep::Mismatch,
                            Some(code) => match spec_tag(s, i5, tok_crlf()) {
                                SpecStep::Incomplete => SpecStep::Incomplete,
                                SpecStep::Mismatch => SpecStep::Mismatch,
                                SpecStep::Got(_, i6) => SpecStep::Got(ReplyModel::Error(code), i6),
                            },
                        },
                    },
                },
            },
        },
    }
}

/// "OK<u8>.<u8>.<u8>.<u8>\r\n".
pub open spec fn spec_alt_firmware(s: Seq<u8>) -> SpecStep<ReplyModel> {
    match spec_tag(s, 0, tok_ok()) {
        SpecStep::Incomplete => SpecStep::Incomplete,
        SpecStep::Mismatch => SpecStep::Mismatch,
        SpecStep::Got(_, i1) => match spec_number(s, i1) {
            SpecStep::Incomplete => SpecStep::Incomplete,
            SpecStep::Mismatch => SpecStep::Mismatch,
            SpecStep::Got(major, i2) => match spec_tag(s, i2, seq![46u8]) {
                SpecStep::Incomplete => SpecStep::Incomplete,
                SpecStep::Mismatch => SpecStep::Mismatch,
                SpecStep::Got(_, i3) => match spec_number(s, i3) {
                    SpecStep::Incomplete => SpecStep::Incomplete,
                    SpecStep::Mismatch => SpecStep::Mismatch,
                    SpecStep::Got(minor, i4) => match spec_tag(s, i4, seq![46u8]) {
                        SpecStep::Incomplete => SpecStep::Incomplete,
                        SpecStep::Mismatch => SpecStep::Mismatch,
                        SpecStep::Got(_, i5) => match spec_number(s, i5) {
                            SpecStep::Incomplete => SpecStep::Incomplete,
                            SpecStep::Mismatch => SpecStep::Mismatch,
                            SpecStep::Got(patch, i6) => match spec_tag(s, i6, seq![46u8]) {
                                SpecStep::Incomplete => SpecStep::Incomplete,
                                SpecStep::Mismatch => SpecStep::Mismatch,
                                SpecStep::Got(_, i7) => match spec_number(s, i7) {
                                    SpecStep::Incomplete => SpecStep::Incomplete,
                                    SpecStep::Mismatch => SpecStep::Mismatch,
                                    SpecStep::Got(build, i8r) => match spec_tag(s, i8r, tok_crlf()) {
                                        SpecStep::Incomplete => SpecStep::Incomplete,
                                        SpecStep::Mismatch => SpecStep::Mismatch,
                                        SpecStep::Got(_, i9) => SpecStep::Got(
                                            ReplyModel::FirmwareInfo(
                                                FirmwareInfo { major, minor, patch, build },
                                            ),
                                            i9,
                                        ),
                                    },
                                },
                            },
                        },
                    },
                },
            },
        },
    }
}

/// "OK<region>\r\n".
pub open spec fn spec_alt_band(s: Seq<u8>) -> SpecStep<ReplyModel> {
    match spec_tag(s, 0, tok_ok()) {
        SpecStep::Incomplete => SpecStep::Incomplete,
        SpecStep::Mismatch => SpecStep::Mismatch,
        SpecStep::Got(_, i1) => match spec_region_token(s, i1) {
            SpecStep::Incomplete => SpecStep::Incomplete,
            SpecStep::Mismatch => SpecStep::Mismatch,
            SpecStep::Got(region, i2) => match spec_tag(s, i2, tok_crlf()) {
                SpecStep::Incomplete => SpecStep::Incomplete,
                SpecStep::Mismatch => SpecStep::Mismatch,
                SpecStep::Got(_, i3) => SpecStep::Got(ReplyModel::LoraBand(region), i3),
            },
        },
    }
}

/// "at+recv=<event>,<port>,<len>[,<len bytes as hex>]\r\n": the unsolicited
/// event line; the payload and its leading comma are present exactly when
/// the length is not zero.
pub open spec fn spec_alt_recv(s: Seq<u8>) -> SpecStep<ReplyModel> {
    match spec_tag(s, 0, tok_at_recv()) {
        SpecStep::Incomplete => SpecStep::Incomplete,
        SpecStep::Mismatch => SpecStep::Mismatch,
        SpecStep::Got(_, i1) => match spec_number(s, i1) {
            SpecStep::Incomplete => SpecStep::Incomplete,
            SpecStep::Mismatch => SpecStep::Mismatch,
            SpecStep::Got(code, i2) => match spec_event_code(code) {
                None => SpecStep::Mismatch,
                Some(event) => match spec_tag(s, i2, seq![44u8]) {
                    SpecStep::Incomplete => SpecStep::Incomplete,
                    SpecStep::Mismatch => SpecStep::Mismatch,
                    SpecStep::Got(_, i3) => match spec_number(s, i3) {
                        SpecStep::Incomplete => SpecStep::Incomplete,
                        SpecStep::Mismatch => SpecStep::Mismatch,
                        SpecStep::Got(port, i4) => match spec_tag(s, i4, seq![44u8]) {
                            SpecStep::Incomplete => SpecStep::Incomplete,
                            SpecStep::Mismatch => SpecStep::Mismatch,
                            SpecStep::Got(_, i5) => match spec_number(s, i5) {
                                SpecStep::Incomplete => SpecStep::Incomplete,
                                SpecStep::Mismatch => SpecStep::Mismatch,
                                SpecStep::Got(len, i6) => if len == 0 {
                                    match spec_tag(s, i6, tok_crlf()) {
                                        SpecStep::Incomplete => SpecStep::Incomplete,
                                        SpecStep::Mismatch => SpecStep::Mismatch,
                                        SpecStep::Got(_, i7) => SpecStep::Got(
                                            ReplyModel::Recv(event, port, 0, None),
                                            i7,
                                        ),
                                    }
                                } else {
                                    match spec_tag(s, i6, seq![44u8]) {
                                        SpecStep::Incomplete => SpecStep::Incomplete,
                                        SpecStep::Mismatch => SpecStep::Mismatch,
                                        SpecStep::Got(_, i7) => match spec_hex_seq(
                                            s,
                                            i7,
                                            len as nat,
                                        ) {
                                            SpecStep::Incomplete => SpecStep::Incomplete,
                                            SpecStep::Mismatch => SpecStep::Mismatch,
                                            SpecStep::Got(data, i8r) => match spec_tag(
                                                s,
                                                i8r,
                                                tok_crlf(),
                                            ) {
                                                SpecStep::Incomplete => SpecStep::Incomplete,
                                                SpecStep::Mismatch => SpecStep::Mismatch,
                                                SpecStep::Got(_, i9) => SpecStep::Got(
                                                    ReplyModel::Recv(
                                                        event,
                                                        port,
                                                        len as nat,
                                                        Some(data),
                                                    ),
                                                    i9,
                                                ),
                                            },
                                        },
                                    }
                                },
                            },
                        },
                    },
                },
            },
        },
    }
}

/// "Initialization OK,<region>\r\n": the post-reset announcement.
pub open spec fn spec_alt_init(s: Seq<u8>) -> SpecStep<ReplyModel> {
    match spec_tag(s, 0, tok_initialized()) {
        SpecStep::Incomplete => SpecStep::Incomplete,
        SpecStep::Mismatch => SpecStep::Mismatch,
        SpecStep::Got(_, i1) => match spec_region_token(s, i1) {
            SpecStep::Incomplete => SpecStep::Incomplete,
            SpecStep::Mismatch => SpecStep::Mismatch,
            SpecStep::Got(region, i2) => match spec_tag(s, i2, tok_crlf()) {
                SpecStep::Incomplete => SpecStep::Incomplete,
                SpecStep::Mismatch => SpecStep::Mismatch,
                SpecStep::Got(_, i3) => SpecStep::Got(ReplyModel::Initialized(region), i3),
            },
        },
    }
}

/// Match one complete reply at the front of the bytes. The alternatives are
/// tried in order; a definite mismatch falls through to the next, while an
/// undecided alternative stops the scan until more bytes arrive.
pub open spec fn spec_scan(s: Seq<u8>) -> SpecStep<ReplyModel> {
    match spec_alt_ok(s) {
        SpecStep::Got(r, n) => SpecStep::Got(r, n),
        SpecStep::Incomplete => SpecStep::Incomplete,
        SpecStep::Mismatch => match spec_alt_error(s) {
            SpecStep::Got(r, n) => SpecStep::Got(r, n),
            SpecStep::Incomplete => SpecStep::Incomplete,
            SpecStep::Mismatch => match spec_alt_firmware(s) {
                SpecStep::Got(r, n) => SpecStep::Got(r, n),
                SpecStep::Incomplete => SpecStep::Incomplete,
                SpecStep::Mismatch => match spec_alt_band(s) {
                    SpecStep::Got(r, n) => SpecStep::Got(r, n),
                    SpecStep::Incomplete => SpecStep::Incomplete,
                    SpecStep::Mismatch => match spec_alt_recv(s) {
                        SpecStep::Got(r, n) => SpecStep::Got(r, n),
                        SpecStep::Incomplete => SpecStep::Incomplete,
                        SpecStep::Mismatch => match spec_alt_init(s) {
                            SpecStep::Got(r, n) => SpecStep::Got(r, n),
                            SpecStep::Incomplete => SpecStep::Incomplete,
                            SpecStep::Mismatch => SpecStep::Mismatch,
                        },
                    },
                },
            },
        },
    }
}

// ---------------------------------------------------------------------------
// Bounds of the grammar elements.
// ---------------------------------------------------------------------------

/// The first non-digit position lies between `i` and the end, everything
/// before it is a digit, and it is the end or a non-digit.
pub proof fn lemma_digits_end_bounds(s: Seq<u8>, i: int)
    requires
        0 <= i <= s.len(),
    ensures
        i <= spec_digits_end(s, i) <= s.len(),
        forall|k: int| i <= k < spec_digits_end(s, i) ==> spec_is_digit(s[k]),
        spec_digits_end(s, i) < s.len() ==> !spec_is_digit(s[spec_digits_end(s, i)]),
        i < s.len() && spec_is_digit(s[i]) ==> spec_digits_end(s, i) > i,
    decreases s.len() - i,
{
    if i < s.len() && spec_is_digit(s[i]) {
        lemma_digits_end_bounds(s, i + 1);
    }
}

/// Any position bounding a digit run from the left characterizes the first
/// non-digit position.
pub proof fn lemma_digits_end_char(s: Seq<u8>, i: int, j: int)
    requires
        0 <= i <= j <= s.len(),
        forall|k: int| i <= k < j ==> spec_is_digit(s[k]),
        j == s.len() || !spec_is_digit(s[j]),
    ensures
        spec_digits_end(s, i) == j,
    decreases j - i,
{
    if i < j {
        assert(spec_is_digit(s[i]));
        lemma_digits_end_char(s, i + 1, j);
    }
}

/// The value of a digit run is non-negative.
pub proof fn lemma_dec_value_nonneg(s: Seq<u8>, i: int, j: int)
    requires
        0 <= i <= j <= s.len(),
        forall|k: int| i <= k < j ==> spec_is_digit(s[k]),
    ensures
        spec_dec_value(s, i, j) >= 0,
    decreases j - i,
{
    if i < j {
        lemma_dec_value_nonneg(s, i, j - 1);
        assert(spec_is_digit(s[j - 1]));
    }
}

/// A matched number ends strictly after it starts and within the input.
pub proof fn lemma_number_bounds(s: Seq<u8>, i: int)
    requires
        0 <= i <= s.len(),
    ensures
        spec_number(s, i) matches SpecStep::Got(_v, j) ==> i < j <= s.len(),
{
    lemma_digits_end_bounds(s, i);
}

/// A matched hexadecimal run of `n` bytes spans `2 * n` digits and yields
/// exactly `n` bytes.
pub proof fn lemma_hex_seq_bounds(s: Seq<u8>, i: int, n: nat)
    requires
        0 <= i <= s.len(),
    ensures
        spec_hex_seq(s, i, n) matches SpecStep::Got(d, j) ==> i <= j <= s.len() && j == i + 2 * n
            && d.len() == n,
    decreases n,
{
    if n > 0 && i + 1 < s.len() && spec_hex_val(s[i]) is Some && spec_hex_val(s[i + 1]) is Some {
        lemma_hex_seq_bounds(s, i + 2, (n - 1) as nat);
    }
}

// ---------------------------------------------------------------------------
// Extension stability: a decided match or mismatch is never changed by
// bytes that arrive later. This is what makes incremental parsing agree
// with parsing the whole line at once.
// ---------------------------------------------------------------------------

/// A decided token match or mismatch survives appending bytes.
pub proof fn lemma_tag_ext(s: Seq<u8>, e: Seq<u8>, i: int, t: Seq<u8>)
    requires
        0 <= i <= s.len(),
    ensures
        spec_tag(s, i, t) matches SpecStep::Got(v, j) ==> spec_tag(s + e, i, t) == SpecStep::Got(
            v,
            j,
        ),
        spec_tag(s, i, t) is Mismatch ==> spec_tag(s + e, i, t) is Mismatch,
{
    let s2 = s + e;
    if i + t.len() <= s.len() {
        assert(s2.subrange(i, i + t.len() as int) =~= s.subrange(i, i + t.len() as int)) by {
            assert forall|k: int| 0 <= k < t.len() implies #[trigger] s2.subrange(
                i,
                i + t.len() as int,
            )[k] == s.subrange(i, i + t.len() as int)[k] by {
                assert(s2[i + k] == s[i + k]);
            };
        };
    } else if spec_tag(s, i, t) is Mismatch {
        if i + t.len() <= s2.len() {
            if s2.subrange(i, i + t.len() as int) == t {
                assert(s.subrange(i, s.len() as int) =~= t.subrange(0, s.len() - i)) by {
                    assert forall|k: int| 0 <= k < s.len() - i implies #[trigger] s.subrange(
                        i,
                        s.len() as int,
                    )[k] == t.subrange(0, s.len() - i)[k] by {
                        assert(s2.subrange(i, i + t.len() as int)[k] == s2[i + k]);
                        assert(s2[i + k] == s[i + k]);
                    };
                };
                assert(false);
            }
        } else {
            if s2.subrange(i, s2.len() as int) == t.subrange(0, s2.len() - i) {
                assert(s.subrange(i, s.len() as int) =~= t.subrange(0, s.len() - i)) by {
                    assert forall|k: int| 0 <= k < s.len() - i implies #[trigger] s.subrange(
                        i,
                        s.len() as int,
                    )[k] == t.subrange(0, s.len() - i)[k] by {
                        assert(s2.subrange(i, s2.len() as int)[k] == s2[i + k]);
                        assert(s2[i + k] == s[i + k]);
                        assert(t.subrange(0, s2.len() - i)[k] == t[k]);
                    };
                };
                assert(false);
            }
        }
    }
}

/// A decided optional token survives appending bytes.
pub proof fn lemma_opt_tag_ext(s: Seq<u8>, e: Seq<u8>, i: int, t: Seq<u8>)
    requires
        0 <= i <= s.len(),
    ensures
        spec_opt_tag(s, i, t) matches SpecStep::Got(v, j) ==> spec_opt_tag(s + e, i, t)
            == SpecStep::Got(v, j),
{
    lemma_tag_ext(s, e, i, t);
}

/// The digit values of a fixed range are unchanged by appending bytes.
pub proof fn lemma_dec_value_ext(s: Seq<u8>, e: Seq<u8>, i: int, j: int)
    requires
        0 <= i <= j <= s.len(),
    ensures
        spec_dec_value(s + e, i, j) == spec_dec_value(s, i, j),
    decreases j - i,
{
    if i < j {
        lemma_dec_value_ext(s, e, i, j - 1);
        assert((s + e)[j - 1] == s[j - 1]);
    }
}

/// A digit run that ends within the input ends at the same place after
/// appending bytes.
pub proof fn lemma_digits_end_ext(s: Seq<u8>, e: Seq<u8>, i: int)
    requires
        0 <= i <= s.len(),
        spec_digits_end(s, i) < s.len(),
    ensures
        spec_digits_end(s + e, i) == spec_digits_end(s, i),
    decreases s.len() - i,
{
    if i < s.len() {
        assert((s + e)[i] == s[i]);
        if spec_is_digit(s[i]) {
            lemma_digits_end_ext(s, e, i + 1);
        }
    }
}

/// A decided number match or mismatch survives appending bytes.
pub proof fn lemma_number_ext(s: Seq<u8>, e: Seq<u8>, i: int)
    requires
        0 <= i <= s.len(),
    ensures
        spec_number(s, i) matches SpecStep::Got(v, j) ==> spec_number(s + e, i) == SpecStep::Got(
            v,
            j,
        ),
        spec_number(s, i) is Mismatch ==> spec_number(s + e, i) is Mismatch,
{
    let s2 = s + e;
    if i < s.len() {
        assert(s2[i] == s[i]);
        if spec_is_digit(s[i]) {
            lemma_digits_end_bounds(s, i);
            let j = spec_digits_end(s, i);
            if j < s.len() {
                lemma_digits_end_ext(s, e, i);
                lemma_dec_value_ext(s, e, i, j);
            }
        }
    }
}

/// A decided hexadecimal run survives appending bytes.
pub proof fn lemma_hex_seq_ext(s: Seq<u8>, e: Seq<u8>, i: int, n: nat)
    requires
        0 <= i <= s.len(),
    ensures
        spec_hex_seq(s, i, n) matches SpecStep::Got(d, j) ==> spec_hex_seq(s + e, i, n)
            == SpecStep::Got(d, j),
        spec_hex_seq(s, i, n) is Mismatch ==> spec_hex_seq(s + e, i, n) is Mismatch,
    decreases n,
{
    let s2 = s + e;
    if n > 0 && i < s.len() {
        assert(s2[i] == s[i]);
        if i + 1 < s.len() {
            assert(s2[i + 1] == s[i + 1]);
            if spec_hex_val(s[i]) is Some && spec_hex_val(s[i + 1]) is Some {
                lemma_hex_seq_ext(s, e, i + 2, (n - 1) as nat);
            }
        }
    }
}

/// A decided region token survives appending bytes.
pub proof fn lemma_region_token_ext(s: Seq<u8>, e: Seq<u8>, i: int)
    requires
        0 <= i <= s.len(),
    ensures
        spec_region_token(s, i) matches SpecStep::Got(v, j) ==> spec_region_token(s + e, i)
            == SpecStep::Got(v, j),
        spec_region_token(s, i) is Mismatch ==> spec_region_token(s + e, i) is Mismatch,
{
    lemma_tag_ext(s, e, i, tok_eu868());
    lemma_tag_ext(s, e, i, tok_us915());
    lemma_tag_ext(s, e, i, tok_au915());
    lemma_tag_ext(s, e, i, tok_kr920());
    lemma_tag_ext(s, e, i, tok_as923());
    lemma_tag_ext(s, e, i, tok_in865());
}

/// Every position produced by a decided grammar element stays within the
/// input; stated for the steps used by the reply alternatives.
proof fn lemma_tag_got_bounds(s: Seq<u8>, i: int, t: Seq<u8>)
    requires
        0 <= i <= s.len(),
    ensures
        spec_tag(s, i, t) matches SpecStep::Got(_v, j) ==> i <= j <= s.len(),
        spec_opt_tag(s, i, t) matches SpecStep::Got(_v, j) ==> i <= j <= s.len(),
{
}

/// A decided "OK" line survives appending bytes.
pub proof fn lemma_alt_ok_ext(s: Seq<u8>, e: Seq<u8>)
    ensures
        spec_alt_ok(s) matches SpecStep::Got(r, n) ==> spec_alt_ok(s + e) == SpecStep::Got(r, n),
        spec_alt_ok(s) is Mismatch ==> spec_alt_ok(s + e) is Mismatch,
{
    lemma_opt_tag_ext(s, e, 0, tok_crlf());
    lemma_tag_got_bounds(s, 0, tok_crlf());
    if let SpecStep::Got(_, i1) = spec_opt_tag(s, 0, tok_crlf()) {
        lemma_opt_tag_ext(s, e, i1, tok_crlf());
        lemma_tag_got_bounds(s, i1, tok_crlf());
        if let SpecStep::Got(_, i2) = spec_opt_tag(s, i1, tok_crlf()) {
            lemma_tag_ext(s, e, i2, tok_ok());
            lemma_tag_got_bounds(s, i2, tok_ok());
            if let SpecStep::Got(_, i3) = spec_tag(s, i2, tok_ok()) {
                lemma_tag_ext(s, e, i3, tok_crlf());
            }
        }
    }
}

/// A decided "ERROR" line survives appending bytes.
pub proof fn lemma_alt_error_ext(s: Seq<u8>, e: Seq<u8>)
    ensures
        spec_alt_error(s) matches SpecStep::Got(r, n) ==> spec_alt_error(s + e) == SpecStep::Got(
            r,
            n,
        ),
        spec_alt_error(s) is Mismatch ==> spec_alt_error(s + e) is Mismatch,
{
    lemma_opt_tag_ext(s, e, 0, tok_crlf());
    lemma_tag_got_bounds(s, 0, tok_crlf());
    if let SpecStep::Got(_, i1) = spec_opt_tag(s, 0, tok_crlf()) {
        lemma_opt_tag_ext(s, e, i1, tok_crlf());
        lemma_tag_got_bounds(s, i1, tok_crlf());
        if let SpecStep::Got(_, i2) = spec_opt_tag(s, i1, tok_crlf()) {
            lemma_tag_ext(s, e, i2, tok_error());
            lemma_tag_got_bounds(s, i2, tok_error());
            if let SpecStep::Got(_, i3) = spec_tag(s, i2, tok_error()) {
                lemma_opt_tag_ext(s, e, i3, seq![45u8]);
                lemma_tag_got_bounds(s, i3, seq![45u8]);
                if let SpecStep::Got(_, i4) = spec_opt_tag(s, i3, seq![45u8]) {
                    lemma_number_ext(s, e, i4);
                    lemma_number_bounds(s, i4);
                    if let SpecStep::Got(_, i5) = spec_number(s, i4) {
                        lemma_tag_ext(s, e, i5, tok_crlf());
                    }
                }
            }
        }
    }
}

/// A decided firmware line survives appending bytes.
pub proof fn lemma_alt_firmware_ext(s: Seq<u8>, e: Seq<u8>)
    ensures
        spec_alt_firmware(s) matches SpecStep::Got(r, n) ==> spec_alt_firmware(s + e)
            == SpecStep::Got(r, n),
        spec_alt_firmware(s) is Mismatch ==> spec_alt_firmware(s + e) is Mismatch,
{
    lemma_tag_ext(s, e, 0, tok_ok());
    lemma_tag_got_bounds(s, 0, tok_ok());
    if let SpecStep::Got(_, i1) = spec_tag(s, 0, tok_ok()) {
        lemma_number_ext(s, e, i1);
        lemma_number_bounds(s, i1);
        if let SpecStep::Got(_, i2) = spec_number(s, i1) {
            lemma_tag_ext(s, e, i2, seq![46u8]);
            lemma_tag_got_bounds(s, i2, seq![46u8]);
            if let SpecStep::Got(_, i3) = spec_tag(s, i2, seq![46u8]) {
                lemma_number_ext(s, e, i3);
                lemma_number_bounds(s, i3);
                if let SpecStep::Got(_, i4) = spec_number(s, i3) {
                    lemma_tag_ext(s, e, i4, seq![46u8]);
                    lemma_tag_got_bounds(s, i4, seq![46u8]);
                    if let SpecStep::Got(_, i5) = spec_tag(s, i4, seq![46u8]) {
                        lemma_number_ext(s, e, i5);
                        lemma_number_bounds(s, i5);
                        if let SpecStep::Got(_, i6) = spec_number(s, i5) {
                            lemma_tag_ext(s, e, i6, seq![46u8]);
                            lemma_tag_got_bounds(s, i6, seq![46u8]);
                            if let SpecStep::Got(_, i7) = spec_tag(s, i6, seq![46u8]) {
                                lemma_number_ext(s, e, i7);
                                lemma_number_bounds(s, i7);
                                if let SpecStep::Got(_, i8r) = spec_number(s, i7) {
                                    lemma_tag_ext(s, e, i8r, tok_crlf());
                                }
                            }
                        }
                    }
                }
            }
        }
    }
}

/// A decided band line survives appending bytes.
pub proof fn lemma_alt_band_ext(s: Seq<u8>, e: Seq<u8>)
    ensures
        spec_alt_band(s) matches SpecStep::Got(r, n) ==> spec_alt_band(s + e) == SpecStep::Got(
            r,
            n,
        ),
        spec_alt_band(s) is Mismatch ==> spec_alt_band(s + e) is Mismatch,
{
    lemma_tag_ext(s, e, 0, tok_ok());
    lemma_tag_got_bounds(s, 0, tok_ok());
    if let SpecStep::Got(_, i1) = spec_tag(s, 0, tok_ok()) {
        lemma_region_token_ext(s, e, i1);
        if let SpecStep::Got(_, i2) = spec_region_token(s, i1) {
            assert(i1 <= i2 <= s.len());
            lemma_tag_ext(s, e, i2, tok_crlf());
        }
    }
}

/// A decided event line survives appending bytes.
pub proof fn lemma_alt_recv_ext(s: Seq<u8>, e: Seq<u8>)
    ensures
        spec_alt_recv(s) matches SpecStep::Got(r, n) ==> spec_alt_recv(s + e) == SpecStep::Got(
            r,
            n,
        ),
        spec_alt_recv(s) is Mismatch ==> spec_alt_recv(s + e) is Mismatch,
{
    lemma_tag_ext(s, e, 0, tok_at_recv());
    lemma_tag_got_bounds(s, 0, tok_at_recv());
    if let SpecStep::Got(_, i1) = spec_tag(s, 0, tok_at_recv()) {
        lemma_number_ext(s, e, i1);
        lemma_number_bounds(s, i1);
        if let SpecStep::Got(_, i2) = spec_number(s, i1) {
            lemma_tag_ext(s, e, i2, seq![44u8]);
            lemma_tag_got_bounds(s, i2, seq![44u8]);
            if let SpecStep::Got(_, i3) = spec_tag(s, i2, seq![44u8]) {
                lemma_number_ext(s, e, i3);
                lemma_number_bounds(s, i3);
                if let SpecStep::Got(_, i4) = spec_number(s, i3) {
                    lemma_tag_ext(s, e, i4, seq![44u8]);
                    lemma_tag_got_bounds(s, i4, seq![44u8]);
                    if let SpecStep::Got(_, i5) = spec_tag(s, i4, seq![44u8]) {
                        lemma_number_ext(s, e, i5);
                        lemma_number_bounds(s, i5);
                        if let SpecStep::Got(len, i6) = spec_number(s, i5) {
                            if len == 0 {
                                lemma_tag_ext(s, e, i6, tok_crlf());
                            } else {
                                lemma_tag_ext(s, e, i6, seq![44u8]);
                                lemma_tag_got_bounds(s, i6, seq![44u8]);
                                if let SpecStep::Got(_, i7) = spec_tag(s, i6, seq![44u8]) {
                                    lemma_hex_seq_ext(s, e, i7, len as nat);
                                    lemma_hex_seq_bounds(s, i7, len as nat);
                                    if let SpecStep::Got(_, i8r) = spec_hex_seq(
                                        s,
                                        i7,
                                        len as nat,
                                    ) {
                                        lemma_tag_ext(s, e, i8r, tok_crlf());
                                    }
                                }
                            }
                        }
                    }
                }
            }
        }
    }
}

/// A decided announcement line survives appending bytes.
pub proof fn lemma_alt_init_ext(s: Seq<u8>, e: Seq<u8>)
    ensures
        spec_alt_init(s) matches SpecStep::Got(r, n) ==> spec_alt_init(s + e) == SpecStep::Got(
            r,
            n,
        ),
        spec_alt_init(s) is Mismatch ==> spec_alt_init(s + e) is Mismatch,
{
    lemma_tag_ext(s, e, 0, tok_initialized());
    lemma_tag_got_bounds(s, 0, tok_initialized());
    if let SpecStep::Got(_, i1) = spec_tag(s, 0, tok_initialized()) {
        lemma_region_token_ext(s, e, i1);
        if let SpecStep::Got(_, i2) = spec_region_token(s, i1) {
            assert(i1 <= i2 <= s.len());
            lemma_tag_ext(s, e, i2, tok_crlf());
        }
    }
}

/// Law: a reply matched from some bytes is matched unchanged, consuming the
/// same prefix, from those bytes with anything appended. Feeding a line one
/// byte at a time therefore decodes exactly as feeding it in one shot.
pub proof fn lemma_scan_ext(s: Seq<u8>, e: Seq<u8>)
    ensures
        spec_scan(s) matches SpecStep::Got(r, n) ==> spec_scan(s + e) == SpecStep::Got(r, n),
        spec_scan(s) is Mismatch ==> spec_scan(s + e) is Mismatch,
{
    lemma_alt_ok_ext(s, e);
    lemma_alt_error_ext(s, e);
    lemma_alt_firmware_ext(s, e);
    lemma_alt_band_ext(s, e);
    lemma_alt_recv_ext(s, e);
    lemma_alt_init_ext(s, e);
}

/// Bounds and well-formedness of a matched "OK" line.
proof fn lemma_alt_ok_bounds(s: Seq<u8>)
    ensures
        spec_alt_ok(s) matches SpecStep::Got(r, n) ==> 0 < n <= s.len() && !(r is NONE)
            && crate::protocol::reply_wf(r),
{
    lemma_tag_got_bounds(s, 0, tok_crlf());
    if let SpecStep::Got(_, i1) = spec_opt_tag(s, 0, tok_crlf()) {
        lemma_tag_got_bounds(s, i1, tok_crlf());
        if let SpecStep::Got(_, i2) = spec_opt_tag(s, i1, tok_crlf()) {
            lemma_tag_got_bounds(s, i2, tok_ok());
            if let SpecStep::Got(_, i3) = spec_tag(s, i2, tok_ok()) {
                lemma_tag_got_bounds(s, i3, tok_crlf());
            }
        }
    }
}

/// Bounds and well-formedness of a matched "ERROR" line.
proof fn lemma_alt_error_bounds(s: Seq<u8>)
    ensures
        spec_alt_error(s) matches SpecStep::Got(r, n) ==> 0 < n <= s.len() && !(r is NONE)
            && crate::protocol::reply_wf(r),
{
    lemma_tag_got_bounds(s, 0, tok_crlf());
    if let SpecStep::Got(_, i1) = spec_opt_tag(s, 0, tok_crlf()) {
        lemma_tag_got_bounds(s, i1, tok_crlf());
        if let SpecStep::Got(_, i2) = spec_opt_tag(s, i1, tok_crlf()) {
            lemma_tag_got_bounds(s, i2, tok_error());
            if let SpecStep::Got(_, i3) = spec_tag(s, i2, tok_error()) {
                lemma_tag_got_bounds(s, i3, seq![45u8]);
                if let SpecStep::Got(_, i4) = spec_opt_tag(s, i3, seq![45u8]) {
                    lemma_number_bounds(s, i4);
                    if let SpecStep::Got(_, i5) = spec_number(s, i4) {
                        lemma_tag_got_bounds(s, i5, tok_crlf());
                    }
                }
            }
        }
    }
}

/// Bounds and well-formedness of a matched firmware line.
proof fn lemma_alt_firmware_bounds(s: Seq<u8>)
    ensures
        spec_alt_firmware(s) matches SpecStep::Got(r, n) ==> 0 < n <= s.len() && !(r is NONE)
            && crate::protocol::reply_wf(r),
{
    lemma_tag_got_bounds(s, 0, tok_ok());
    if let SpecStep::Got(_, i1) = spec_tag(s, 0, tok_ok()) {
        lemma_number_bounds(s, i1);
        if let SpecStep::Got(_, i2) = spec_number(s, i1) {
            lemma_tag_got_bounds(s, i2, seq![46u8]);
            if let SpecStep::Got(_, i3) = spec_tag(s, i2, seq![46u8]) {
                lemma_number_bounds(s, i3);
                if let SpecStep::Got(_, i4) = spec_number(s, i3) {
                    lemma_tag_got_bounds(s, i4, seq![46u8]);
                    if let SpecStep::Got(_, i5) = spec_tag(s, i4, seq![46u8]) {
                        lemma_number_bounds(s, i5);
                        if let SpecStep::Got(_, i6) = spec_number(s, i5) {
                            lemma_tag_got_bounds(s, i6, seq![46u8]);
                            if let SpecStep::Got(_, i7) = spec_tag(s, i6, seq![46u8]) {
                                lemma_number_bounds(s, i7);
                                if let SpecStep::Got(_, i8r) = spec_number(s, i7) {
                                    lemma_tag_got_bounds(s, i8r, tok_crlf());
                                }
                            }
                        }
                    }
                }
            }
        }
    }
}

/// Bounds and well-formedness of a matched band line.
proof fn lemma_alt_band_bounds(s: Seq<u8>)
    ensures
        spec_alt_band(s) matches SpecStep::Got(r, n) ==> 0 < n <= s.len() && !(r is NONE)
            && crate::protocol::reply_wf(r),
{
    lemma_tag_got_bounds(s, 0, tok_ok());
    if let SpecStep::Got(_, i1) = spec_tag(s, 0, tok_ok()) {
        if let SpecStep::Got(_region, i2) = spec_region_token(s, i1) {
            assert(i1 < i2 <= s.len());
            lemma_tag_got_bounds(s, i2, tok_crlf());
        }
    }
}

/// Bounds and well-formedness of a matched event line.
proof fn lemma_alt_recv_bounds(s: Seq<u8>)
    ensures
        spec_alt_recv(s) matches SpecStep::Got(r, n) ==> 0 < n <= s.len() && !(r is NONE)
            && crate::protocol::reply_wf(r),
{
    lemma_tag_got_bounds(s, 0, tok_at_recv());
    if let SpecStep::Got(_, i1) = spec_tag(s, 0, tok_at_recv()) {
        lemma_number_bounds(s, i1);
        if let SpecStep::Got(_, i2) = spec_number(s, i1) {
            lemma_tag_got_bounds(s, i2, seq![44u8]);
            if let SpecStep::Got(_, i3) = spec_tag(s, i2, seq![44u8]) {
                lemma_number_bounds(s, i3);
                if let SpecStep::Got(_, i4) = spec_number(s, i3) {
                    lemma_tag_got_bounds(s, i4, seq![44u8]);
                    if let SpecStep::Got(_, i5) = spec_tag(s, i4, seq![44u8]) {
                        lemma_number_bounds(s, i5);
                        if let SpecStep::Got(len, i6) = spec_number(s, i5) {
                            lemma_tag_got_bounds(s, i6, tok_crlf());
                            lemma_tag_got_bounds(s, i6, seq![44u8]);
                            if let SpecStep::Got(_, i7) = spec_tag(s, i6, seq![44u8]) {
                                lemma_hex_seq_bounds(s, i7, len as nat);
                                if let SpecStep::Got(_, i8r) = spec_hex_seq(s, i7, len as nat) {
                                    lemma_tag_got_bounds(s, i8r, tok_crlf());
                                }
                            }
                        }
                    }
                }
            }
        }
    }
}

/// Bounds and well-formedness of a matched announcement line.
proof fn lemma_alt_init_bounds(s: Seq<u8>)
    ensures
        spec_alt_init(s) matches SpecStep::Got(r, n) ==> 0 < n <= s.len() && !(r is NONE)
            && crate::protocol::reply_wf(r),
{
    lemma_tag_got_bounds(s, 0, tok_initialized());
    if let SpecStep::Got(_, i1) = spec_tag(s, 0, tok_initialized()) {
        if let SpecStep::Got(_region, i2) = spec_region_token(s, i1) {
            assert(i1 < i2 <= s.len());
            lemma_tag_got_bounds(s, i2, tok_crlf());
        }
    }
}

/// A matched reply consumes at least one byte and no more than the input,
/// is never the sentinel, and is well formed.
pub proof fn lemma_scan_bounds(s: Seq<u8>)
    ensures
        spec_scan(s) matches SpecStep::Got(r, n) ==> 0 < n <= s.len() && !(r
            is NONE) && crate::protocol::reply_wf(r),
{
    lemma_alt_ok_bounds(s);
    lemma_alt_error_bounds(s);
    lemma_alt_firmware_bounds(s);
    lemma_alt_band_bounds(s);
    lemma_alt_recv_bounds(s);
    lemma_alt_init_bounds(s);
}

// ---------------------------------------------------------------------------
// The executable scanner. Each function mirrors one specification element
// and its result is stated against that element exactly.
// ---------------------------------------------------------------------------

/// Outcome of the executable scan: a decoded reply and the number of bytes
/// it consumed, a definite mismatch, or not enough bytes to decide.
#[derive(Debug)]
pub enum ScanStep {
    Found(Response, usize),
    Mismatch,
    Incomplete,
}

/// The executable outcome agrees with the specification outcome.
pub open spec fn step_corresponds(r: ScanStep, m: SpecStep<ReplyModel>) -> bool {
    match r {
        ScanStep::Found(resp, n) => m == SpecStep::Got(resp@, n as int),
        ScanStep::Mismatch => m is Mismatch,
        ScanStep::Incomplete => m is Incomplete,
    }
}

enum TagStep {
    Advance(usize),
    Mismatch,
    Incomplete,
}

enum OptStep {
    Decided(bool, usize),
    Incomplete,
}

enum NumStep {
    Value(u8, usize),
    Mismatch,
    Incomplete,
}

enum HexStep {
    Data(Vec<u8>, usize),
    Mismatch,
    Incomplete,
}

enum RegStep {
    Region(LoraRegion, usize),
    Mismatch,
    Incomplete,
}

/// Decimal value of one ASCII digit, if the byte is a digit.
pub open spec fn spec_digit_value(b: u8) -> Option<u8> {
    if spec_is_digit(b) {
        Some((b - 48) as u8)
    } else {
        None
    }
}

/// Map an ASCII digit byte to its numeric value.
pub fn ascii_to_digit(character: u8) -> (r: Option<u8>)
    ensures
        r == spec_digit_value(character),
{
    if 48 <= character && character <= 57 {
        Some(character - 48)
    } else {
        None
    }
}

/// Decimal value of a whole digit run, if every byte is a digit and the
/// value fits in a byte; used where a complete token is already at hand.
pub fn atoi_u8(digits: &[u8]) -> (r: Option<u8>)
    ensures
        r == (if (forall|k: int| 0 <= k < digits@.len() ==> spec_is_digit(digits@[k]))
            && spec_dec_value(digits@, 0, digits@.len() as int) <= 255 {
            Some(spec_dec_value(digits@, 0, digits@.len() as int) as u8)
        } else {
            None::<u8>
        }),
{
    let n = digits.len();
    let mut i: usize = 0;
    let mut acc: u32 = 0;
    let mut over: bool = false;
    while i < n
        invariant
            i <= n,
            n == digits@.len(),
            forall|k: int| 0 <= k < i ==> spec_is_digit(digits@[k]),
            !over ==> acc == spec_dec_value(digits@, 0, i as int) && acc <= 255,
            over ==> spec_dec_value(digits@, 0, i as int) > 255,
        decreases n - i,
    {
        let b = digits[i];
        match ascii_to_digit(b) {
            None => {
                return None;
            },
            Some(d) => {
                proof {
                    lemma_dec_value_nonneg(digits@, 0, i as int);
                }
                if !over {
                    acc = acc * 10 + (d as u32);
                    if acc > 255 {
                        over = true;
                    }
                } else {
                }
            },
        }
        i = i + 1;
    }
    if over {
        None
    } else {
        Some(acc as u8)
    }
}

/// Match the literal token `t` at position `i`.
fn match_tag(v: &Vec<u8>, i: usize, t: &[u8]) -> (r: TagStep)
    requires
        i <= v@.len(),
    ensures
        (match r {
            TagStep::Advance(j) => spec_tag(v@, i as int, t@) == SpecStep::<()>::Got((), j as int)
                && i <= j <= v@.len(),
            TagStep::Mismatch => spec_tag(v@, i as int, t@) is Mismatch,
            TagStep::Incomplete => spec_tag(v@, i as int, t@) is Incomplete,
        }),
{
    let avail = v.len() - i;
    let tlen = t.len();
    let mut k: usize = 0;
    while k < tlen && k < avail
        invariant
            i <= v@.len(),
            k <= tlen,
            k <= avail,
            tlen == t@.len(),
            avail == v@.len() - i,
            i + avail <= usize::MAX,
            forall|m: int| 0 <= m < k ==> v@[i + m] == t@[m],
        decreases tlen - k,
    {
        if v[i + k] != t[k] {
            proof {
                if i + tlen <= v@.len() {
                    if v@.subrange(i as int, i + tlen) == t@ {
                        assert(v@.subrange(i as int, i + tlen)[k as int] == v@[i + k]);
                        assert(false);
                    }
                } else {
                    if v@.subrange(i as int, v@.len() as int) == t@.subrange(0, avail as int) {
                        assert(v@.subrange(i as int, v@.len() as int)[k as int] == v@[i + k]);
                        assert(t@.subrange(0, avail as int)[k as int] == t@[k as int]);
                        assert(false);
                    }
                }
            }
            return TagStep::Mismatch;
        }
        k = k + 1;
    }
    if k == tlen {
        proof {
            assert(v@.subrange(i as int, i + tlen) =~= t@);
        }
        TagStep::Advance(i + tlen)
    } else {
        proof {
            assert(v@.subrange(i as int, v@.len() as int) =~= t@.subrange(0, avail as int));
        }
        TagStep::Incomplete
    }
}

/// Match the token `t` if it is there.
fn match_opt_tag(v: &Vec<u8>, i: usize, t: &[u8]) -> (r: OptStep)
    requires
        i <= v@.len(),
    ensures
        (match r {
            OptStep::Decided(b, j) => spec_opt_tag(v@, i as int, t@) == SpecStep::Got(b, j as int)
                && i <= j <= v@.len(),
            OptStep::Incomplete => spec_opt_tag(v@, i as int, t@) is Incomplete,
        }),
{
    match match_tag(v, i, t) {
        TagStep::Advance(j) => OptStep::Decided(true, j),
        TagStep::Mismatch => OptStep::Decided(false, i),
        TagStep::Incomplete => OptStep::Incomplete,
    }
}

/// Match one or more decimal digits whose value fits in a byte.
fn scan_number(v: &Vec<u8>, i: usize) -> (r: NumStep)
    requires
        i <= v@.len(),
    ensures
        (match r {
            NumStep::Value(x, j) => spec_number(v@, i as int) == SpecStep::Got(x, j as int) && i
                < j <= v@.len(),
            NumStep::Mismatch => spec_number(v@, i as int) is Mismatch,
            NumStep::Incomplete => spec_number(v@, i as int) is Incomplete,
        }),
{
    let n = v.len();
    if i >= n {
        return NumStep::Incomplete;
    }
    let first = v[i];
    if !(48 <= first && first <= 57) {
        return NumStep::Mismatch;
    }
    let mut j: usize = i;
    let mut acc: u32 = 0;
    let mut over: bool = false;
    while j < n
        invariant_except_break
            i <= j <= n,
            n == v@.len(),
            forall|m: int| i <= m < j ==> spec_is_digit(v@[m]),
            !over ==> acc == spec_dec_value(v@, i as int, j as int) && acc <= 255,
            over ==> spec_dec_value(v@, i as int, j as int) > 255,
        ensures
            i <= j <= n,
            n == v@.len(),
            forall|m: int| i <= m < j ==> spec_is_digit(v@[m]),
            j == n || !spec_is_digit(v@[j as int]),
            !over ==> acc == spec_dec_value(v@, i as int, j as int) && acc <= 255,
            over ==> spec_dec_value(v@, i as int, j as int) > 255,
        decreases n - j,
    {
        let b = v[j];
        if !(48 <= b && b <= 57) {
            break;
        }
        proof {
            lemma_dec_value_nonneg(v@, i as int, j as int);
        }
        if !over {
            acc = acc * 10 + ((b - 48) as u32);
            if acc > 255 {
                over = true;
            }
        }
        j = j + 1;
    }
    proof {
        lemma_digits_end_char(v@, i as int, j as int);
    }
    if j == n {
        return NumStep::Incomplete;
    }
    if over {
        return NumStep::Mismatch;
    }
    NumStep::Value(acc as u8, j)
}

/// Value of one ASCII lowercase hexadecimal digit.
fn hex_val(b: u8) -> (r: Option<u8>)
    ensures
        r == spec_hex_val(b),
        r matches Some(x) ==> x < 16,
{
    if 48 <= b && b <= 57 {
        Some(b - 48)
    } else if 97 <= b && b <= 102 {
        Some(b - 87)
    } else {
        None
    }
}

/// Match exactly `n` bytes written as `2 * n` lowercase hexadecimal digits.
fn scan_hex(v: &Vec<u8>, i: usize, n: usize) -> (r: HexStep)
    requires
        i <= v@.len(),
    ensures
        (match r {
            HexStep::Data(d, j) => spec_hex_seq(v@, i as int, n as nat) == SpecStep::Got(
                d@,
                j as int,
            ) && i <= j <= v@.len(),
            HexStep::Mismatch => spec_hex_seq(v@, i as int, n as nat) is Mismatch,
            HexStep::Incomplete => spec_hex_seq(v@, i as int, n as nat) is Incomplete,
        }),
    decreases n,
{
    if n == 0 {
        let d: Vec<u8> = Vec::new();
        proof {
            assert(d@ =~= Seq::<u8>::empty());
        }
        return HexStep::Data(d, i);
    }
    if i >= v.len() {
        return HexStep::Incomplete;
    }
    let hi = match hex_val(v[i]) {
        Some(x) => x,
        None => {
            return HexStep::Mismatch;
        },
    };
    if i + 1 >= v.len() {
        return HexStep::Incomplete;
    }
    let lo = match hex_val(v[i + 1]) {
        Some(x) => x,
        None => {
            return HexStep::Mismatch;
        },
    };
    match scan_hex(v, i + 2, n - 1) {
        HexStep::Data(rest, j) => {
            let b = hi * 16 + lo;
            let mut d: Vec<u8> = Vec::new();
            d.push(b);
            let m = rest.len();
            let mut k: usize = 0;
            while k < m
                invariant
                    k <= m,
                    m == rest@.len(),
                    d@ == seq![b] + rest@.take(k as int),
                decreases m - k,
            {
                d.push(rest[k]);
                k = k + 1;
                proof {
                    assert(d@ =~= seq![b] + rest@.take(k as int));
                }
            }
            proof {
                assert(rest@.take(m as int) =~= rest@);
            }
            HexStep::Data(d, j)
        },
        HexStep::Mismatch => HexStep::Mismatch,
        HexStep::Incomplete => HexStep::Incomplete,
    }
}

/// Match one of the six region tokens.
fn match_region(v: &Vec<u8>, i: usize) -> (r: RegStep)
    requires
        i <= v@.len(),
    ensures
        (match r {
            RegStep::Region(region, j) => spec_region_token(v@, i as int) == SpecStep::Got(
                region,
                j as int,
            ) && i <= j <= v@.len(),
            RegStep::Mismatch => spec_region_token(v@, i as int) is Mismatch,
            RegStep::Incomplete => spec_region_token(v@, i as int) is Incomplete,
        }),
{
    let eu868: [u8; 5] = [69, 85, 56, 54, 56];
    let us915: [u8; 5] = [85, 83, 57, 49, 53];
    let au915: [u8; 5] = [65, 85, 57, 49, 53];
    let kr920: [u8; 5] = [75, 82, 57, 50, 48];
    let as923: [u8; 5] = [65, 83, 57, 50, 51];
    let in865: [u8; 5] = [73, 78, 56, 54, 53];
    proof {
        assert(eu868@ =~= tok_eu868());
        assert(us915@ =~= tok_us915());
        assert(au915@ =~= tok_au915());
        assert(kr920@ =~= tok_kr920());
        assert(as923@ =~= tok_as923());
        assert(in865@ =~= tok_in865());
    }
    match match_tag(v, i, &eu868) {
        TagStep::Advance(j) => {
            return RegStep::Region(LoraRegion::EU868, j);
        },
        TagStep::Incomplete => {
            return RegStep::Incomplete;
        },
        TagStep::Mismatch => {},
    }
    match match_tag(v, i, &us915) {
        TagStep::Advance(j) => {
            return RegStep::Region(LoraRegion::US915, j);
        },
        TagStep::Incomplete => {
            return RegStep::Incomplete;
        },
        TagStep::Mismatch => {},
    }
    match match_tag(v, i, &au915) {
        TagStep::Advance(j) => {
            return RegStep::Region(LoraRegion::AU915, j);
        },
        TagStep::Incomplete => {
            return RegStep::Incomplete;
        },
        TagStep::Mismatch => {},
    }
    match match_tag(v, i, &kr920) {
        TagStep::Advance(j) => {
            return RegStep::Region(LoraRegion::KR920, j);
        },
        TagStep::Incomplete => {
            return RegStep::Incomplete;
        },
        TagStep::Mismatch => {},
    }
    match match_tag(v, i, &as923) {
        TagStep::Advance(j) => {
            return RegStep::Region(LoraRegion::AS923, j);
        },
        TagStep::Incomplete => {
            return RegStep::Incomplete;
        },
        TagStep::Mismatch => {},
    }
    match match_tag(v, i, &in865) {
        TagStep::Advance(j) => {
            return RegStep::Region(LoraRegion::IN865, j);
        },
        TagStep::Incomplete => {
            return RegStep::Incomplete;
        },
        TagStep::Mismatch => {
            return RegStep::Mismatch;
        },
    }
}

/// The event named by a wire code.
fn event_of(n: u8) -> (r: Option<EventCode>)
    ensures
        r == spec_event_code(n),
{
    if n == 0 {
        Some(EventCode::JoinedSuccess)
    } else if n == 1 {
        Some(EventCode::TxUnconfirmed)
    } else if n == 2 {
        Some(EventCode::TxConfirmed)
    } else if n == 3 {
        Some(EventCode::RecvData)
    } else {
        None
    }
}

/// Scan an "OK" line.
fn scan_ok(v: &Vec<u8>) -> (r: ScanStep)
    ensures
        step_corresponds(r, spec_alt_ok(v@)),
{
    let crlf: [u8; 2] = [13, 10];
    let okt: [u8; 2] = [79, 75];
    proof {
        assert(crlf@ =~= tok_crlf());
        assert(okt@ =~= tok_ok());
    }
    let i1 = match match_opt_tag(v, 0, &crlf) {
        OptStep::Decided(_, j) => j,
        OptStep::Incomplete => {
            return ScanStep::Incomplete;
        },
    };
    let i2 = match match_opt_tag(v, i1, &crlf) {
        OptStep::Decided(_, j) => j,
        OptStep::Incomplete => {
            return ScanStep::Incomplete;
        },
    };
    let i3 = match match_tag(v, i2, &okt) {
        TagStep::Advance(j) => j,
        TagStep::Mismatch => {
            return ScanStep::Mismatch;
        },
        TagStep::Incomplete => {
            return ScanStep::Incomplete;
        },
    };
    let i4 = match match_tag(v, i3, &crlf) {
        TagStep::Advance(j) => j,
        TagStep::Mismatch => {
            return ScanStep::Mismatch;
        },
        TagStep::Incomplete => {
            return ScanStep::Incomplete;
        },
    };
    ScanStep::Found(Response::OK, i4)
}

/// Scan an "ERROR" line.
fn scan_error(v: &Vec<u8>) -> (r: ScanStep)
    ensures
        step_corresponds(r, spec_alt_error(v@)),
{
    let crlf: [u8; 2] = [13, 10];
    let errt: [u8; 5] = [69, 82, 82, 79, 82];
    let minus: [u8; 1] = [45];
    proof {
        assert(crlf@ =~= tok_crlf());
        assert(errt@ =~= tok_error());
        assert(minus@ =~= seq![45u8]);
    }
    let i1 = match match_opt_tag(v, 0, &crlf) {
        OptStep::Decided(_, j) => j,
        OptStep::Incomplete => {
            return ScanStep::Incomplete;
        },
    };
    let i2 = match match_opt_tag(v, i1, &crlf) {
        OptStep::Decided(_, j) => j,
        OptStep::Incomplete => {
            return ScanStep::Incomplete;
        },
    };
    let i3 = match match_tag(v, i2, &errt) {
        TagStep::Advance(j) => j,
        TagStep::Mismatch => {
            return ScanStep::Mismatch;
        },
        TagStep::Incomplete => {
            return ScanStep::Incomplete;
        },
    };
    let (negative, i4) = match match_opt_tag(v, i3, &minus) {
        OptStep::Decided(b, j) => (b, j),
        OptStep::Incomplete => {
            return ScanStep::Incomplete;
        },
    };
    let (value, i5) = match scan_number(v, i4) {
        NumStep::Value(x, j) => (x, j),
        NumStep::Mismatch => {
            return ScanStep::Mismatch;
        },
        NumStep::Incomplete => {
            return ScanStep::Incomplete;
        },
    };
    let code: i8 = if negative {
        if value <= 128 {
            (-(value as i16)) as i8
        } else {
            return ScanStep::Mismatch;
        }
    } else {
        if value <= 127 {
            value as i8
        } else {
            return ScanStep::Mismatch;
        }
    };
    let i6 = match match_tag(v, i5, &crlf) {
        TagStep::Advance(j) => j,
        TagStep::Mismatch => {
            return ScanStep::Mismatch;
        },
        TagStep::Incomplete => {
            return ScanStep::Incomplete;
        },
    };
    ScanStep::Found(Response::Error(code), i6)
}

/// Scan a firmware-version line.
fn scan_firmware(v: &Vec<u8>) -> (r: ScanStep)
    ensures
        step_corresponds(r, spec_alt_firmware(v@)),
{
    let crlf: [u8; 2] = [13, 10];
    let okt: [u8; 2] = [79, 75];
    let dot: [u8; 1] = [46];
    proof {
        assert(crlf@ =~= tok_crlf());
        assert(okt@ =~= tok_ok());
        assert(dot@ =~= seq![46u8]);
    }
    let i1 = match match_tag(v, 0, &okt) {
        TagStep::Advance(j) => j,
        TagStep::Mismatch => {
            return ScanStep::Mismatch;
        },
        TagStep::Incomplete => {
            return ScanStep::Incomplete;
        },
    };
    let (major, i2) = match scan_number(v, i1) {
        NumStep::Value(x, j) => (x, j),
        NumStep::Mismatch => {
            return ScanStep::Mismatch;
        },
        NumStep::Incomplete => {
            return ScanStep::Incomplete;
        },
    };
    let i3 = match match_tag(v, i2, &dot) {
        TagStep::Advance(j) => j,
        TagStep::Mismatch => {
            return ScanStep::Mismatch;
        },
        TagStep::Incomplete => {
            return ScanStep::Incomplete;
        },
    };
    let (minor, i4) = match scan_number(v, i3) {
        NumStep::Value(x, j) => (x, j),
        NumStep::Mismatch => {
            return ScanStep::Mismatch;
        },
        NumStep::Incomplete => {
            return ScanStep::Incomplete;
        },
    };
    let i5 = match match_tag(v, i4, &dot) {
        TagStep::Advance(j) => j,
        TagStep::Mismatch => {
            return ScanStep::Mismatch;
        },
        TagStep::Incomplete => {
            return ScanStep::Incomplete;
        },
    };
    let (patch, i6) = match scan_number(v, i5) {
        NumStep::Value(x, j) => (x, j),
        NumStep::Mismatch => {
            return ScanStep::Mismatch;
        },
        NumStep::Incomplete => {
            return ScanStep::Incomplete;
        },
    };
    let i7 = match match_tag(v, i6, &dot) {
        TagStep::Advance(j) => j,
        TagStep::Mismatch => {
            return ScanStep::Mismatch;
        },
        TagStep::Incomplete => {
            return ScanStep::Incomplete;
        },
    };
    let (build, i8r) = match scan_number(v, i7) {
        NumStep::Value(x, j) => (x, j),
        NumStep::Mismatch => {
            return ScanStep::Mismatch;
        },
        NumStep::Incomplete => {
            return ScanStep::Incomplete;
        },
    };
    let i9 = match match_tag(v, i8r, &crlf) {
        TagStep::Advance(j) => j,
        TagStep::Mismatch => {
            return ScanStep::Mismatch;
        },
        TagStep::Incomplete => {
            return ScanStep::Incomplete;
        },
    };
    ScanStep::Found(Response::FirmwareInfo(FirmwareInfo { major, minor, patch, build }), i9)
}

/// Scan a band line.
fn scan_band(v: &Vec<u8>) -> (r: ScanStep)
    ensures
        step_corresponds(r, spec_alt_band(v@)),
{
    let crlf: [u8; 2] = [13, 10];
    let okt: [u8; 2] = [79, 75];
    proof {
        assert(crlf@ =~= tok_crlf());
        assert(okt@ =~= tok_ok());
    }
    let i1 = match match_tag(v, 0, &okt) {
        TagStep::Advance(j) => j,
        TagStep::Mismatch => {
            return ScanStep::Mismatch;
        },
        TagStep::Incomplete => {
            return ScanStep::Incomplete;
        },
    };
    let (region, i2) = match match_region(v, i1) {
        RegStep::Region(x, j) => (x, j),
        RegStep::Mismatch => {
            return ScanStep::Mismatch;
        },
        RegStep::Incomplete => {
            return ScanStep::Incomplete;
        },
    };
    let i3 = match match_tag(v, i2, &crlf) {
        TagStep::Advance(j) => j,
        TagStep::Mismatch => {
            return ScanStep::Mismatch;
        },
        TagStep::Incomplete => {
            return ScanStep::Incomplete;
        },
    };
    ScanStep::Found(Response::LoraBand(region), i3)
}

/// Scan an unsolicited event line.
fn scan_recv(v: &Vec<u8>) -> (r: ScanStep)
    ensures
        step_corresponds(r, spec_alt_recv(v@)),
{
    let crlf: [u8; 2] = [13, 10];
    let recvt: [u8; 8] = [97, 116, 43, 114, 101, 99, 118, 61];
    let comma: [u8; 1] = [44];
    proof {
        assert(crlf@ =~= tok_crlf());
        assert(recvt@ =~= tok_at_recv());
        assert(comma@ =~= seq![44u8]);
    }
    let i1 = match match_tag(v, 0, &recvt) {
        TagStep::Advance(j) => j,
        TagStep::Mismatch => {
            return ScanStep::Mismatch;
        },
        TagStep::Incomplete => {
            return ScanStep::Incomplete;
        },
    };
    let (code, i2) = match scan_number(v, i1) {
        NumStep::Value(x, j) => (x, j),
        NumStep::Mismatch => {
            return ScanStep::Mismatch;
        },
        NumStep::Incomplete => {
            return ScanStep::Incomplete;
        },
    };
    let event = match event_of(code) {
        Some(ev) => ev,
        None => {
            return ScanStep::Mismatch;
        },
    };
    let i3 = match match_tag(v, i2, &comma) {
        TagStep::Advance(j) => j,
        TagStep::Mismatch => {
            return ScanStep::Mismatch;
        },
        TagStep::Incomplete => {
            return ScanStep::Incomplete;
        },
    };
    let (port, i4) = match scan_number(v, i3) {
        NumStep::Value(x, j) => (x, j),
        NumStep::Mismatch => {
            return ScanStep::Mismatch;
        },
        NumStep::Incomplete => {
            return ScanStep::Incomplete;
        },
    };
    let i5 = match match_tag(v, i4, &comma) {
        TagStep::Advance(j) => j,
        TagStep::Mismatch => {
            return ScanStep::Mismatch;
        },
        TagStep::Incomplete => {
            return ScanStep::Incomplete;
        },
    };
    let (len, i6) = match scan_number(v, i5) {
        NumStep::Value(x, j) => (x, j),
        NumStep::Mismatch => {
            return ScanStep::Mismatch;
        },
        NumStep::Incomplete => {
            return ScanStep::Incomplete;
        },
    };
    if len == 0 {
        let i7 = match match_tag(v, i6, &crlf) {
            TagStep::Advance(j) => j,
            TagStep::Mismatch => {
                return ScanStep::Mismatch;
            },
            TagStep::Incomplete => {
                return ScanStep::Incomplete;
            },
        };
        return ScanStep::Found(Response::Recv(event, port, 0, None), i7);
    }
    let i7 = match match_tag(v, i6, &comma) {
        TagStep::Advance(j) => j,
        TagStep::Mismatch => {
            return ScanStep::Mismatch;
        },
        TagStep::Incomplete => {
            return ScanStep::Incomplete;
        },
    };
    let (data, i8r) = match scan_hex(v, i7, len as usize) {
        HexStep::Data(d, j) => (d, j),
        HexStep::Mismatch => {
            return ScanStep::Mismatch;
        },
        HexStep::Incomplete => {
            return ScanStep::Incomplete;
        },
    };
    let i9 = match match_tag(v, i8r, &crlf) {
        TagStep::Advance(j) => j,
        TagStep::Mismatch => {
            return ScanStep::Mismatch;
        },
        TagStep::Incomplete => {
            return ScanStep::Incomplete;
        },
    };
    ScanStep::Found(Response::Recv(event, port, len as usize, Some(data)), i9)
}

/// Scan a post-reset announcement line.
fn scan_init(v: &Vec<u8>) -> (r: ScanStep)
    ensures
        step_corresponds(r, spec_alt_init(v@)),
{
    let crlf: [u8; 2] = [13, 10];
    let initt: [u8; 18] = [
        73, 110, 105, 116, 105, 97, 108, 105, 122, 97, 116, 105, 111, 110, 32, 79, 75, 44,
    ];
    proof {
        assert(crlf@ =~= tok_crlf());
        assert(initt@ =~= tok_initialized());
    }
    let i1 = match match_tag(v, 0, &initt) {
        TagStep::Advance(j) => j,
        TagStep::Mismatch => {
            return ScanStep::Mismatch;
        },
        TagStep::Incomplete => {
            return ScanStep::Incomplete;
        },
    };
    let (region, i2) = match match_region(v, i1) {
        RegStep::Region(x, j) => (x, j),
        RegStep::Mismatch => {
            return ScanStep::Mismatch;
        },
        RegStep::Incomplete => {
            return ScanStep::Incomplete;
        },
    };
    let i3 = match match_tag(v, i2, &crlf) {
        TagStep::Advance(j) => j,
        TagStep::Mismatch => {
            return ScanStep::Mismatch;
        },
        TagStep::Incomplete => {
            return ScanStep::Incomplete;
        },
    };
    ScanStep::Found(Response::Initialized(region), i3)
}

/// Match one complete reply at the front of the accumulated bytes, trying
/// the alternatives in grammar order.
pub fn scan(v: &Vec<u8>) -> (r: ScanStep)
    ensures
        step_corresponds(r, spec_scan(v@)),
{
    match scan_ok(v) {
        ScanStep::Found(resp, n) => {
            return ScanStep::Found(resp, n);
        },
        ScanStep::Incomplete => {
            return ScanStep::Incomplete;
        },
        ScanStep::Mismatch => {},
    }
    match scan_error(v) {
        ScanStep::Found(resp, n) => {
            return ScanStep::Found(resp, n);
        },
        ScanStep::Incomplete => {
            return ScanStep::Incomplete;
        },
        ScanStep::Mismatch => {},
    }
    match scan_firmware(v) {
        ScanStep::Found(resp, n) => {
            return ScanStep::Found(resp, n);
        },
        ScanStep::Incomplete => {
            return ScanStep::Incomplete;
        },
        ScanStep::Mismatch => {},
    }
    match scan_band(v) {
        ScanStep::Found(resp, n) => {
            return ScanStep::Found(resp, n);
        },
        ScanStep::Incomplete => {
            return ScanStep::Incomplete;
        },
        ScanStep::Mismatch => {},
    }
    match scan_recv(v) {
        ScanStep::Found(resp, n) => {
            return ScanStep::Found(resp, n);
        },
        ScanStep::Incomplete => {
            return ScanStep::Incomplete;
        },
        ScanStep::Mismatch => {},
    }
    match scan_init(v) {
        ScanStep::Found(resp, n) => {
            return ScanStep::Found(resp, n);
        },
        ScanStep::Incomplete => {
            return ScanStep::Incomplete;
        },
        ScanStep::Mismatch => ScanStep::Mismatch,
    }
}


// ---------------------------------------------------------------------------
// Laws: what the encoder writes, the grammar reads back.
// ---------------------------------------------------------------------------

/// A hexadecimal digit written by the encoder reads back as its value.
proof fn lemma_hex_digit_round_trip(x: u8)
    requires
        x < 16,
    ensures
        spec_hex_val(spec_hex_digit(x)) == Some(x),
{
}

/// Law: a payload written as two lowercase hexadecimal digits per byte is
/// read back byte for byte, whatever follows it.
pub proof fn lemma_hex_round_trip(s: Seq<u8>, i: int, d: Seq<u8>)
    requires
        0 <= i,
        i + 2 * d.len() <= s.len(),
        s.subrange(i, i + 2 * d.len()) == spec_hex_bytes(d),
    ensures
        spec_hex_seq(s, i, d.len()) == SpecStep::Got(d, i + 2 * d.len()),
    decreases d.len(),
{
    crate::protocol::lemma_hex_bytes_len(d);
    if d.len() == 0 {
        assert(spec_hex_seq(s, i, 0) == SpecStep::<Seq<u8>>::Got(Seq::empty(), i));
        assert(Seq::<u8>::empty() =~= d);
    } else {
        let hb = spec_hex_bytes(d);
        assert(hb[0] == spec_hex_digit(d[0] / 16) && hb[1] == spec_hex_digit(d[0] % 16)) by {
            assert(spec_hex_pair(d[0])[0] == spec_hex_digit(d[0] / 16));
            assert(spec_hex_pair(d[0])[1] == spec_hex_digit(d[0] % 16));
            assert(hb == spec_hex_pair(d[0]) + spec_hex_bytes(d.drop_first()));
        };
        assert(s[i] == hb[0] && s[i + 1] == hb[1]) by {
            assert(s.subrange(i, i + 2 * d.len())[0] == s[i]);
            assert(s.subrange(i, i + 2 * d.len())[1] == s[i + 1]);
        };
        lemma_hex_digit_round_trip(d[0] / 16);
        lemma_hex_digit_round_trip(d[0] % 16);
        assert((d[0] / 16) * 16 + d[0] % 16 == d[0]);
        crate::protocol::lemma_hex_bytes_len(d.drop_first());
        assert(s.subrange(i + 2, i + 2 + 2 * d.drop_first().len()) == spec_hex_bytes(
            d.drop_first(),
        )) by {
            assert forall|k: int| 0 <= k < 2 * d.drop_first().len() implies #[trigger] s.subrange(
                i + 2,
                i + 2 + 2 * d.drop_first().len(),
            )[k] == spec_hex_bytes(d.drop_first())[k] by {
                assert(s.subrange(i + 2, i + 2 + 2 * d.drop_first().len())[k] == s[i + 2 + k]);
                assert(s.subrange(i, i + 2 * d.len())[2 + k] == s[i + 2 + k]);
                assert(hb == spec_hex_pair(d[0]) + spec_hex_bytes(d.drop_first()));
                assert(hb[2 + k] == spec_hex_bytes(d.drop_first())[k]);
            };
            assert(s.subrange(i + 2, i + 2 + 2 * d.drop_first().len()) =~= spec_hex_bytes(
                d.drop_first(),
            ));
        };
        lemma_hex_round_trip(s, i + 2, d.drop_first());
        assert(seq![d[0]] + d.drop_first() =~= d);
    }
}

/// Law: a value written as decimal digits is read back as itself, provided
/// something that is not a digit follows the digits.
pub proof fn lemma_dec_round_trip(n: u8, rest: Seq<u8>)
    requires
        rest.len() > 0,
        !spec_is_digit(rest[0]),
    ensures
        spec_number(spec_dec_u8(n) + rest, 0) == SpecStep::Got(n, spec_dec_u8(n).len() as int),
{
    let d = spec_dec_u8(n);
    let s = d + rest;
    let l = d.len() as int;
    assert(forall|k: int| 0 <= k < l ==> spec_is_digit(#[trigger] s[k]));
    assert(!spec_is_digit(s[l]));
    lemma_digits_end_char(s, 0, l);
    assert(spec_dec_value(s, 0, 0) == 0);
    assert(spec_dec_value(s, 0, 1) == s[0] - 48);
    if n < 10 {
        assert(s[0] == 48 + n);
        assert(spec_dec_value(s, 0, 1) == n);
    } else if n < 100 {
        assert(s[0] == 48 + n / 10 && s[1] == 48 + n % 10);
        assert(spec_dec_value(s, 0, 2) == spec_dec_value(s, 0, 1) * 10 + (s[1] - 48));
        assert(spec_dec_value(s, 0, 1) == n / 10);
        assert((n / 10) * 10 + n % 10 == n);
    } else {
        assert(s[0] == 48 + n / 100 && s[1] == 48 + (n / 10) % 10 && s[2] == 48 + n % 10);
        assert(spec_dec_value(s, 0, 1) == n / 100);
        assert(spec_dec_value(s, 0, 2) == (n / 100) * 10 + (n / 10) % 10);
        assert(spec_dec_value(s, 0, 3) == spec_dec_value(s, 0, 2) * 10 + n % 10);
        assert(n / 100 == (n / 10) / 10);
        assert(((n / 10) / 10) * 10 + (n / 10) % 10 == n / 10);
        assert((n / 10) * 10 + n % 10 == n);
    }
}


} // verus!
