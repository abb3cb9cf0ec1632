//! The decode stage's payload grammar: a JSON array of objects, each
//! carrying at least an `id` field (an unsigned 64-bit integer) and a
//! `user` object with its own `id`. Additional fields of any JSON shape
//! are skipped without being interpreted; a non-array top-level value or
//! trailing content after the array is a format error.
//!
//! The grammar is defined by the `spec` functions below, over raw bytes.
//! Two deliberate simplifications against full JSON: string contents are
//! scanned bytewise (escape sequences are validated but the bytes are not
//! checked to be UTF-8), and object keys are compared as raw bytes, so an
//! escaped spelling of `id` counts as an unknown key.

use vstd::prelude::*;

use crate::api::{Tweet, User};

verus! {


/// Byte values of the JSON structural characters and literal spellings.
pub const B_QUOTE: u8 = 0x22;
pub const B_BACKSLASH: u8 = 0x5C;
pub const B_SLASH: u8 = 0x2F;
pub const B_LBRACE: u8 = 0x7B;
pub const B_RBRACE: u8 = 0x7D;
pub const B_LBRACK: u8 = 0x5B;
pub const B_RBRACK: u8 = 0x5D;
pub const B_COLON: u8 = 0x3A;
pub const B_COMMA: u8 = 0x2C;
pub const B_DOT: u8 = 0x2E;
pub const B_MINUS: u8 = 0x2D;
pub const B_PLUS: u8 = 0x2B;
pub const B_ZERO: u8 = 0x30;
pub const B_LOW_A: u8 = 0x61;
pub const B_LOW_B: u8 = 0x62;
pub const B_LOW_D: u8 = 0x64;
pub const B_LOW_E: u8 = 0x65;
pub const B_UPP_E: u8 = 0x45;
pub const B_LOW_F: u8 = 0x66;
pub const B_LOW_I: u8 = 0x69;
pub const B_LOW_L: u8 = 0x6C;
pub const B_LOW_N: u8 = 0x6E;
pub const B_LOW_R: u8 = 0x72;
pub const B_LOW_S: u8 = 0x73;
pub const B_LOW_T: u8 = 0x74;
pub const B_LOW_U: u8 = 0x75;

/// JSON insignificant whitespace.
pub open spec fn is_ws(b: u8) -> bool {
    b == 0x20 || b == 0x09 || b == 0x0A || b == 0x0D
}

pub open spec fn is_digit(b: u8) -> bool {
    0x30 <= b <= 0x39
}

pub open spec fn is_hex(b: u8) -> bool {
    is_digit(b) || (0x41 <= b <= 0x46) || (0x61 <= b <= 0x66)
}

/// The single-character escapes of JSON strings.
pub open spec fn is_simple_escape(b: u8) -> bool {
    b == B_QUOTE || b == B_BACKSLASH || b == B_SLASH || b == B_LOW_B || b == B_LOW_F || b == B_LOW_N || b == B_LOW_R
        || b == B_LOW_T
}

/// The first index at or past `i` holding something other than whitespace.
pub open spec fn spec_skip_ws(s: Seq<u8>, i: int) -> int
    decreases s.len() - i,
{
    if 0 <= i < s.len() && is_ws(s[i]) {
        spec_skip_ws(s, i + 1)
    } else {
        i
    }
}

/// The first index at or past `i` holding a non-digit.
pub open spec fn spec_skip_digits(s: Seq<u8>, i: int) -> int
    decreases s.len() - i,
{
    if 0 <= i < s.len() && is_digit(s[i]) {
        spec_skip_digits(s, i + 1)
    } else {
        i
    }
}

/// Consumes the rest of a string whose opening quote stands just before
/// `i`: the index after the closing quote, or `None` on an invalid escape,
/// an unescaped control byte, or an unterminated string.
pub open spec fn spec_skip_string_body(s: Seq<u8>, i: int) -> Option<int>
    decreases s.len() - i,
{
    if i < 0 || i >= s.len() {
        None
    } else if s[i] == B_QUOTE {
        Some(i + 1)
    } else if s[i] == B_BACKSLASH {
        if i + 2 > s.len() {
            None
        } else if s[i + 1] == B_LOW_U {
            if i + 6 <= s.len() && is_hex(s[i + 2]) && is_hex(s[i + 3]) && is_hex(s[i + 4])
                && is_hex(s[i + 5]) {
                spec_skip_string_body(s, i + 6)
            } else {
                None
            }
        } else if is_simple_escape(s[i + 1]) {
            spec_skip_string_body(s, i + 2)
        } else {
            None
        }
    } else if s[i] >= 0x20 {
        spec_skip_string_body(s, i + 1)
    } else {
        None
    }
}

/// Consumes the fraction part of a number, if one starts at `i`: a dot
/// must be followed by at least one digit.
pub open spec fn spec_skip_frac(s: Seq<u8>, i: int) -> Option<int> {
    if 0 <= i < s.len() && s[i] == B_DOT {
        let d = spec_skip_digits(s, i + 1);
        if d > i + 1 {
            Some(d)
        } else {
            None
        }
    } else {
        Some(i)
    }
}

/// Consumes the exponent part of a number, if one starts at `i`: `e` or
/// `E`, an optional sign, then at least one digit.
pub open spec fn spec_skip_exp(s: Seq<u8>, i: int) -> Option<int> {
    if 0 <= i < s.len() && (s[i] == B_LOW_E || s[i] == B_UPP_E) {
        let g = if i + 1 < s.len() && (s[i + 1] == B_PLUS || s[i + 1] == B_MINUS) {
            i + 2
        } else {
            i + 1
        };
        let d = spec_skip_digits(s, g);
        if d > g {
            Some(d)
        } else {
            None
        }
    } else {
        Some(i)
    }
}

/// Consumes one JSON number starting at `i`: an optional minus, an integer
/// part without redundant leading zeroes, then optional fraction and
/// exponent parts.
pub open spec fn spec_skip_number(s: Seq<u8>, i: int) -> Option<int> {
    if i < 0 || i >= s.len() {
        None
    } else {
        let j = if s[i] == B_MINUS {
            i + 1
        } else {
            i
        };
        if j >= s.len() || !is_digit(s[j]) {
            None
        } else {
            let k = if s[j] == B_ZERO {
                j + 1
            } else {
                spec_skip_digits(s, j)
            };
            match spec_skip_frac(s, k) {
                None => None,
                Some(f) => spec_skip_exp(s, f),
            }
        }
    }
}

/// Consumes one JSON value of any shape starting at `i`, returning the
/// index just past it.
pub open spec fn spec_skip_value(s: Seq<u8>, i: int) -> Option<int>
    decreases s.len() - i, 0int,
{
    if i < 0 || i >= s.len() {
        None
    } else if s[i] == B_QUOTE {
        spec_skip_string_body(s, i + 1)
    } else if s[i] == B_LBRACE {
        spec_skip_object_items(s, i + 1, true)
    } else if s[i] == B_LBRACK {
        spec_skip_array_items(s, i + 1, true)
    } else if s[i] == B_LOW_T {
        if i + 4 <= s.len() && s[i + 1] == B_LOW_R && s[i + 2] == B_LOW_U && s[i + 3] == B_LOW_E {
            Some(i + 4)
        } else {
            None
        }
    } else if s[i] == B_LOW_F {
        if i + 5 <= s.len() && s[i + 1] == B_LOW_A && s[i + 2] == B_LOW_L && s[i + 3] == B_LOW_S && s[i + 4]
            == B_LOW_E {
            Some(i + 5)
        } else {
            None
        }
    } else if s[i] == B_LOW_N {
        if i + 4 <= s.len() && s[i + 1] == B_LOW_U && s[i + 2] == B_LOW_L && s[i + 3] == B_LOW_L {
            Some(i + 4)
        } else {
            None
        }
    } else {
        spec_skip_number(s, i)
    }
}

/// Consumes the members of an object whose opening brace (or separating
/// comma) stands just before `i`, returning the index after the closing
/// brace. `first` distinguishes the position after `{`, where `}` may
/// close an empty object, from the position after a comma, where a member
/// is owed.
///
/// The bound guards (`None` where an inner scan went backwards) can never
/// fire — every scan moves forward — and exist to make the recursion
/// measure evident.
pub open spec fn spec_skip_object_items(s: Seq<u8>, i: int, first: bool) -> Option<int>
    decreases s.len() - i, 1int,
{
    let j = spec_skip_ws(s, i);
    if !(i <= j && j < s.len()) {
        None
    } else if first && s[j] == B_RBRACE {
        Some(j + 1)
    } else if s[j] != B_QUOTE {
        None
    } else {
        match spec_skip_string_body(s, j + 1) {
            None => None,
            Some(k) => {
                let c = spec_skip_ws(s, k);
                if !(j + 1 < k && k <= c && c < s.len()) {
                    None
                } else if s[c] != B_COLON {
                    None
                } else {
                    let m = spec_skip_ws(s, c + 1);
                    if !(i < m && c + 1 <= m && m <= s.len()) {
                        None
                    } else {
                        match spec_skip_value(s, m) {
                            None => None,
                            Some(v) => {
                                let e = spec_skip_ws(s, v);
                                if !(m < v && v <= e && e < s.len()) {
                                    None
                                } else if s[e] == B_RBRACE {
                                    Some(e + 1)
                                } else if s[e] == B_COMMA {
                                    spec_skip_object_items(s, e + 1, false)
                                } else {
                                    None
                                }
                            },
                        }
                    }
                }
            },
        }
    }
}

/// Counterpart of [`spec_skip_object_items`] for arrays.
pub open spec fn spec_skip_array_items(s: Seq<u8>, i: int, first: bool) -> Option<int>
    decreases s.len() - i, 1int,
{
    let j = spec_skip_ws(s, i);
    if !(i <= j && j < s.len()) {
        None
    } else if first && s[j] == B_RBRACK {
        Some(j + 1)
    } else {
        match spec_skip_value(s, j) {
            None => None,
            Some(v) => {
                let e = spec_skip_ws(s, v);
                if !(j < v && v <= e && e < s.len()) {
                    None
                } else if s[e] == B_RBRACK {
                    Some(e + 1)
                } else if s[e] == B_COMMA {
                    spec_skip_array_items(s, e + 1, false)
                } else {
                    None
                }
            },
        }
    }
}

/// Folds decimal digits left to right into a 64-bit value, failing where
/// the running value would overflow — exactly where the full digit run
/// denotes a value above `u64::MAX`.
pub open spec fn spec_fold_digits(s: Seq<u8>, i: int, end: int, acc: u64) -> Option<(u64, int)>
    decreases end - i,
{
    if i >= end {
        Some((acc, i))
    } else {
        let d = (s[i] - 0x30) as u64;
        if acc > (u64::MAX - d) / 10 {
            None
        } else {
            spec_fold_digits(s, i + 1, end, (acc * 10 + d) as u64)
        }
    }
}

/// The positional value of the decimal digits `s[i..end]`, most
/// significant first.
pub open spec fn spec_dec_val(s: Seq<u8>, i: int, end: int) -> int
    decreases end - i,
{
    if i >= end {
        0
    } else {
        spec_dec_val(s, i, end - 1) * 10 + (s[end - 1] - 0x30)
    }
}

proof fn lemma_dec_val_nonneg(s: Seq<u8>, i: int, end: int)
    requires
        forall|j: int| i <= j < end ==> is_digit(#[trigger] s[j]),
    ensures
        spec_dec_val(s, i, end) >= 0,
    decreases end - i,
{
    if i < end {
        lemma_dec_val_nonneg(s, i, end - 1);
    }
}

/// Peeling the most significant digit off the front: the value of
/// `s[i..end]` is that digit weighted by its position plus the value of
/// the rest.
proof fn lemma_dec_val_split_first(s: Seq<u8>, i: int, end: int)
    requires
        0 <= i < end <= s.len(),
        forall|j: int| i <= j < end ==> is_digit(#[trigger] s[j]),
    ensures
        spec_dec_val(s, i, end) == (s[i] - 0x30) * vstd::arithmetic::power::pow(
            10,
            (end - i - 1) as nat,
        ) + spec_dec_val(s, i + 1, end),
    decreases end - i,
{
    reveal(vstd::arithmetic::power::pow);
    let d = s[i] - 0x30;
    if end - i == 1 {
        assert(vstd::arithmetic::power::pow(10, 0) == 1);
        assert(spec_dec_val(s, i + 1, end) == 0);
        assert(spec_dec_val(s, i, end - 1) == 0);
    } else {
        lemma_dec_val_split_first(s, i, end - 1);
        let p = vstd::arithmetic::power::pow(10, (end - i - 2) as nat);
        let dl = s[end - 1] - 0x30;
        let rest = spec_dec_val(s, i + 1, end - 1);
        assert(spec_dec_val(s, i + 1, end) == rest * 10 + dl);
        assert(vstd::arithmetic::power::pow(10, (end - i - 1) as nat) == 10 * p);
        assert((d * p + rest) * 10 == d * (10 * p) + rest * 10) by (nonlinear_arith);
    }
}

/// The digit fold returns exactly the positional value of the digit run
/// when that value fits in 64 bits (counting the seed `acc` at its
/// weight), and fails exactly when it does not.
proof fn lemma_fold_digits_value(s: Seq<u8>, i: int, end: int, acc: u64)
    requires
        0 <= i <= end <= s.len(),
        forall|j: int| i <= j < end ==> is_digit(#[trigger] s[j]),
    ensures
        match spec_fold_digits(s, i, end, acc) {
            Some(p) => p.1 == end && p.0 == acc * vstd::arithmetic::power::pow(10, (end - i) as nat)
                + spec_dec_val(s, i, end),
            None => acc * vstd::arithmetic::power::pow(10, (end - i) as nat) + spec_dec_val(
                s,
                i,
                end,
            ) > u64::MAX,
        },
    decreases end - i,
{
    broadcast use vstd::arithmetic::power::lemma_pow_positive;

    reveal(vstd::arithmetic::power::pow);
    let n = (end - i) as nat;
    if i >= end {
        assert(vstd::arithmetic::power::pow(10, 0) == 1);
    } else {
        let d = (s[i] - 0x30) as u64;
        let p1 = vstd::arithmetic::power::pow(10, (end - i - 1) as nat);
        assert(vstd::arithmetic::power::pow(10, n) == 10 * p1);
        lemma_dec_val_split_first(s, i, end);
        lemma_dec_val_nonneg(s, i + 1, end);
        assert(acc * (10 * p1) + (d * p1 + spec_dec_val(s, i + 1, end)) == (acc * 10 + d) * p1
            + spec_dec_val(s, i + 1, end)) by (nonlinear_arith);
        if acc > (u64::MAX - d) / 10 {
            // The running value already exceeds what fits: so does the
            // whole, since the remaining digits only scale it up.
            assert(acc * 10 + d > u64::MAX);
            assert((acc * 10 + d) * p1 >= (acc * 10 + d) * 1) by (nonlinear_arith)
                requires
                    p1 >= 1 && acc * 10 + d >= 0,
            ;
        } else {
            assert(acc * 10 + d <= u64::MAX) by (nonlinear_arith)
                requires
                    acc <= (u64::MAX - d as u64) / 10,
                    0 <= d < 10,
            ;
            lemma_fold_digits_value(s, i + 1, end, (acc * 10 + d) as u64);
        }
    }
}

proof fn lemma_skip_digits_range(s: Seq<u8>, i: int)
    requires
        0 <= i <= s.len(),
    ensures
        i <= spec_skip_digits(s, i) <= s.len(),
        forall|j: int| i <= j < spec_skip_digits(s, i) ==> is_digit(#[trigger] s[j]),
    decreases s.len() - i,
{
    if i < s.len() && is_digit(s[i]) {
        lemma_skip_digits_range(s, i + 1);
    }
}

/// The law of the identifier parser: an accepted digit run yields exactly
/// the decimal value it spells, and a run is rejected for its value
/// exactly when that value does not fit in 64 bits.
pub proof fn lemma_parse_u64_value(s: Seq<u8>, i: int)
    requires
        0 <= i < s.len(),
        is_digit(s[i]),
    ensures
        ({
            let end = if s[i] == B_ZERO {
                i + 1
            } else {
                spec_skip_digits(s, i)
            };
            match spec_parse_u64(s, i) {
                Some(p) => p.1 == end && p.0 == spec_dec_val(s, i, end),
                None => spec_dec_val(s, i, end) > u64::MAX,
            }
        }),
{
    lemma_skip_digits_range(s, i);
    let end = if s[i] == B_ZERO {
        i + 1
    } else {
        spec_skip_digits(s, i)
    };
    lemma_fold_digits_value(s, i, end, 0);
    let p = vstd::arithmetic::power::pow(10, (end - i) as nat);
    assert(0 * p == 0) by (nonlinear_arith);
}

/// Parses an unsigned 64-bit decimal integer starting at `i`: one or more
/// digits without a redundant leading zero, whose value fits in 64 bits.
pub open spec fn spec_parse_u64(s: Seq<u8>, i: int) -> Option<(u64, int)> {
    if i < 0 || i >= s.len() || !is_digit(s[i]) {
        None
    } else {
        let end = if s[i] == B_ZERO {
            i + 1
        } else {
            spec_skip_digits(s, i)
        };
        spec_fold_digits(s, i, end, 0)
    }
}

/// Completes a tweet object once its closing brace was found at `close`:
/// both fields must have been seen.
pub open spec fn spec_finish_tweet(id: Option<u64>, uid: Option<u64>, close: int) -> Option<
    (Tweet, int),
> {
    match (id, uid) {
        (Some(id), Some(uid)) => Some((Tweet { id, user: User { id: uid } }, close)),
        _ => None,
    }
}

/// Consumes the members of a `user` object (opening brace just before
/// `i`), extracting its `id` field, skipping the rest, and rejecting a
/// duplicate or missing `id`.
pub open spec fn spec_parse_user_items(s: Seq<u8>, i: int, first: bool, uid: Option<u64>) -> Option<
    (u64, int),
>
    decreases s.len() - i,
{
    let j = spec_skip_ws(s, i);
    if !(i <= j && j < s.len()) {
        None
    } else if first && s[j] == B_RBRACE {
        match uid {
            Some(u) => Some((u, j + 1)),
            None => None,
        }
    } else if s[j] != B_QUOTE {
        None
    } else {
        match spec_skip_string_body(s, j + 1) {
            None => None,
            Some(k) => {
                let c = spec_skip_ws(s, k);
                if !(j + 1 < k && k <= c && c < s.len()) {
                    None
                } else if s[c] != B_COLON {
                    None
                } else {
                    let m = spec_skip_ws(s, c + 1);
                    if !(i < m && c + 1 <= m && m <= s.len()) {
                        None
                    } else {
                        let key = s.subrange(j + 1, k - 1);
                        if key == seq![B_LOW_I, B_LOW_D] {
                            if uid is Some {
                                None
                            } else {
                                match spec_parse_u64(s, m) {
                                    None => None,
                                    Some((u, v)) => spec_user_items_tail(s, m, v, Some(u)),
                                }
                            }
                        } else {
                            match spec_skip_value(s, m) {
                                None => None,
                                Some(v) => spec_user_items_tail(s, m, v, uid),
                            }
                        }
                    }
                }
            },
        }
    }
}

/// The position after one member of a `user` object: close at `}`, or
/// continue past a comma.
pub open spec fn spec_user_items_tail(s: Seq<u8>, m: int, v: int, uid: Option<u64>) -> Option<
    (u64, int),
>
    decreases s.len() - m, 1int,
{
    let e = spec_skip_ws(s, v);
    if !(m < v && v <= e && e < s.len()) {
        None
    } else if s[e] == B_RBRACE {
        match uid {
            Some(u) => Some((u, e + 1)),
            None => None,
        }
    } else if s[e] == B_COMMA {
        spec_parse_user_items(s, e + 1, false, uid)
    } else {
        None
    }
}

/// Consumes the members of a tweet object (opening brace just before
/// `i`), extracting `id` and `user`, skipping unknown members, and
/// rejecting duplicate or missing fields.
pub open spec fn spec_parse_tweet_items(
    s: Seq<u8>,
    i: int,
    first: bool,
    id: Option<u64>,
    uid: Option<u64>,
) -> Option<(Tweet, int)>
    decreases s.len() - i, 0int,
{
    let j = spec_skip_ws(s, i);
    if !(i <= j && j < s.len()) {
        None
    } else if first && s[j] == B_RBRACE {
        spec_finish_tweet(id, uid, j + 1)
    } else if s[j] != B_QUOTE {
        None
    } else {
        match spec_skip_string_body(s, j + 1) {
            None => None,
            Some(k) => {
                let c = spec_skip_ws(s, k);
                if !(j + 1 < k && k <= c && c < s.len()) {
                    None
                } else if s[c] != B_COLON {
                    None
                } else {
                    let m = spec_skip_ws(s, c + 1);
                    if !(i < m && c + 1 <= m && m <= s.len()) {
                        None
                    } else {
                        let key = s.subrange(j + 1, k - 1);
                        if key == seq![B_LOW_I, B_LOW_D] {
                            if id is Some {
                                None
                            } else {
                                match spec_parse_u64(s, m) {
                                    None => None,
                                    Some((val, v)) => spec_tweet_items_tail(
                                        s,
                                        m,
                                        v,
                                        Some(val),
                                        uid,
                                    ),
                                }
                            }
                        } else if key == seq![B_LOW_U, B_LOW_S, B_LOW_E, B_LOW_R] {
                            if uid is Some {
                                None
                            } else {
                                let u = spec_skip_ws(s, m);
                                if !(m <= u && u < s.len() && i < u + 1) {
                                    None
                                } else if s[u] != B_LBRACE {
                                    None
                                } else {
                                    match spec_parse_user_items(s, u + 1, true, None) {
                                        None => None,
                                        Some((uval, v)) => spec_tweet_items_tail(
                                            s,
                                            m,
                                            v,
                                            id,
                                            Some(uval),
                                        ),
                                    }
                                }
                            }
                        } else {
                            match spec_skip_value(s, m) {
                                None => None,
                                Some(v) => spec_tweet_items_tail(s, m, v, id, uid),
                            }
                        }
                    }
                }
            },
        }
    }
}

/// The position after one member of a tweet object: close at `}`, or
/// continue past a comma.
pub open spec fn spec_tweet_items_tail(
    s: Seq<u8>,
    m: int,
    v: int,
    id: Option<u64>,
    uid: Option<u64>,
) -> Option<(Tweet, int)>
    decreases s.len() - m, 1int,
{
    let e = spec_skip_ws(s, v);
    if !(m < v && v <= e && e < s.len()) {
        None
    } else if s[e] == B_RBRACE {
        spec_finish_tweet(id, uid, e + 1)
    } else if s[e] == B_COMMA {
        spec_parse_tweet_items(s, e + 1, false, id, uid)
    } else {
        None
    }
}

/// Consumes the elements of the top-level array (opening bracket just
/// before `i`): tweet objects separated by commas, closed by `]`.
pub open spec fn spec_parse_elems(s: Seq<u8>, i: int, first: bool) -> Option<(Seq<Tweet>, int)>
    decreases s.len() - i,
{
    let j = spec_skip_ws(s, i);
    if !(i <= j && j < s.len()) {
        None
    } else if first && s[j] == B_RBRACK {
        Some((Seq::empty(), j + 1))
    } else if s[j] != B_LBRACE {
        None
    } else {
        match spec_parse_tweet_items(s, j + 1, true, None, None) {
            None => None,
            Some((tw, v)) => {
                let e = spec_skip_ws(s, v);
                if !(j + 1 <= v && v <= e && e < s.len()) {
                    None
                } else if s[e] == B_RBRACK {
                    Some((seq![tw], e + 1))
                } else if s[e] == B_COMMA {
                    match spec_parse_elems(s, e + 1, false) {
                        None => None,
                        Some((rest, end)) => Some((seq![tw] + rest, end)),
                    }
                } else {
                    None
                }
            },
        }
    }
}

/// The payload grammar as a whole: optional whitespace, one array of
/// tweet objects, optional whitespace, end of input. `None` is a format
/// error.
pub open spec fn spec_parse_timeline(s: Seq<u8>) -> Option<Seq<Tweet>> {
    let j = spec_skip_ws(s, 0);
    if !(0 <= j && j < s.len()) {
        None
    } else if s[j] != B_LBRACK {
        None
    } else {
        match spec_parse_elems(s, j + 1, true) {
            None => None,
            Some((tws, end)) => {
                if spec_skip_ws(s, end) == s.len() {
                    Some(tws)
                } else {
                    None
                }
            },
        }
    }
}

/// How an executable scanner's result relates to its grammar function: the
/// same verdict, the same end index, and the end strictly past `lo`.
pub open spec fn tok_ok(r: Option<usize>, sp: Option<int>, lo: int, len: int) -> bool {
    match sp {
        Some(e) => r matches Some(x) && x as int == e && lo < e <= len,
        None => r is None,
    }
}

fn skip_ws(s: &[u8], i: usize) -> (r: usize)
    requires
        i <= s@.len(),
    ensures
        r == spec_skip_ws(s@, i as int),
        i <= r <= s@.len(),
    decreases s@.len() - i,
{
    if i < s.len() {
        let b = s[i];
        if b == 0x20 || b == 0x09 || b == 0x0A || b == 0x0D {
            return skip_ws(s, i + 1);
        }
    }
    i
}

fn skip_digits(s: &[u8], i: usize) -> (r: usize)
    requires
        i <= s@.len(),
    ensures
        r == spec_skip_digits(s@, i as int),
        i <= r <= s@.len(),
        i < s@.len() && is_digit(s@[i as int]) ==> i + 1 <= r,
        forall|j: int| i <= j < r ==> is_digit(s@[j]),
        r < s@.len() ==> !is_digit(s@[r as int]),
    decreases s@.len() - i,
{
    if i < s.len() {
        let b = s[i];
        if 0x30 <= b && b <= 0x39 {
            return skip_digits(s, i + 1);
        }
    }
    i
}

fn skip_string_body(s: &[u8], i: usize) -> (r: Option<usize>)
    requires
        i <= s@.len(),
    ensures
        tok_ok(r, spec_skip_string_body(s@, i as int), i as int, s@.len() as int),
    decreases s@.len() - i,
{
    if i >= s.len() {
        return None;
    }
    let b = s[i];
    if b == B_QUOTE {
        Some(i + 1)
    } else if b == B_BACKSLASH {
        if s.len() - i < 2 {
            None
        } else if s[i + 1] == B_LOW_U {
            if s.len() - i >= 6 && is_hex_exec(s[i + 2]) && is_hex_exec(s[i + 3]) && is_hex_exec(
                s[i + 4],
            ) && is_hex_exec(s[i + 5]) {
                skip_string_body(s, i + 6)
            } else {
                None
            }
        } else if is_simple_escape_exec(s[i + 1]) {
            skip_string_body(s, i + 2)
        } else {
            None
        }
    } else if b >= 0x20 {
        skip_string_body(s, i + 1)
    } else {
        None
    }
}

fn is_hex_exec(b: u8) -> (r: bool)
    ensures
        r == is_hex(b),
{
    (0x30 <= b && b <= 0x39) || (0x41 <= b && b <= 0x46) || (0x61 <= b && b <= 0x66)
}

fn is_simple_escape_exec(b: u8) -> (r: bool)
    ensures
        r == is_simple_escape(b),
{
    b == B_QUOTE || b == B_BACKSLASH || b == B_SLASH || b == B_LOW_B || b == B_LOW_F || b == B_LOW_N
        || b == B_LOW_R || b == B_LOW_T
}

fn skip_frac(s: &[u8], i: usize) -> (r: Option<usize>)
    requires
        i <= s@.len(),
    ensures
        match spec_skip_frac(s@, i as int) {
            Some(e) => r matches Some(x) && x as int == e && i <= e <= s@.len(),
            None => r is None,
        },
{
    if i < s.len() && s[i] == B_DOT {
        let d = skip_digits(s, i + 1);
        if d > i + 1 {
            Some(d)
        } else {
            None
        }
    } else {
        Some(i)
    }
}

fn skip_exp(s: &[u8], i: usize) -> (r: Option<usize>)
    requires
        i <= s@.len(),
    ensures
        match spec_skip_exp(s@, i as int) {
            Some(e) => r matches Some(x) && x as int == e && i <= e <= s@.len(),
            None => r is None,
        },
{
    if i < s.len() && (s[i] == B_LOW_E || s[i] == B_UPP_E) {
        let g = if i + 1 < s.len() && (s[i + 1] == B_PLUS || s[i + 1] == B_MINUS) {
            i + 2
        } else {
            i + 1
        };
        let d = skip_digits(s, g);
        if d > g {
            Some(d)
        } else {
            None
        }
    } else {
        Some(i)
    }
}

fn skip_number(s: &[u8], i: usize) -> (r: Option<usize>)
    requires
        i <= s@.len(),
    ensures
        tok_ok(r, spec_skip_number(s@, i as int), i as int, s@.len() as int),
{
    if i >= s.len() {
        return None;
    }
    let j = if s[i] == B_MINUS {
        i + 1
    } else {
        i
    };
    if j >= s.len() || !(0x30 <= s[j] && s[j] <= 0x39) {
        return None;
    }
    let k = if s[j] == B_ZERO {
        j + 1
    } else {
        skip_digits(s, j)
    };
    match skip_frac(s, k) {
        None => None,
        Some(f) => skip_exp(s, f),
    }
}

fn skip_value(s: &[u8], i: usize) -> (r: Option<usize>)
    requires
        i <= s@.len(),
    ensures
        tok_ok(r, spec_skip_value(s@, i as int), i as int, s@.len() as int),
    decreases s@.len() - i, 0int,
{
    if i >= s.len() {
        return None;
    }
    let b = s[i];
    if b == B_QUOTE {
        skip_string_body(s, i + 1)
    } else if b == B_LBRACE {
        skip_object_items(s, i + 1, true)
    } else if b == B_LBRACK {
        skip_array_items(s, i + 1, true)
    } else if b == B_LOW_T {
        if s.len() - i >= 4 && s[i + 1] == B_LOW_R && s[i + 2] == B_LOW_U && s[i + 3] == B_LOW_E {
            Some(i + 4)
        } else {
            None
        }
    } else if b == B_LOW_F {
        if s.len() - i >= 5 && s[i + 1] == B_LOW_A && s[i + 2] == B_LOW_L && s[i + 3] == B_LOW_S
            && s[i + 4] == B_LOW_E {
            Some(i + 5)
        } else {
            None
        }
    } else if b == B_LOW_N {
        if s.len() - i >= 4 && s[i + 1] == B_LOW_U && s[i + 2] == B_LOW_L && s[i + 3] == B_LOW_L {
            Some(i + 4)
        } else {
            None
        }
    } else {
        skip_number(s, i)
    }
}

fn skip_object_items(s: &[u8], i: usize, first: bool) -> (r: Option<usize>)
    requires
        i <= s@.len(),
    ensures
        tok_ok(r, spec_skip_object_items(s@, i as int, first), i as int, s@.len() as int),
    decreases s@.len() - i, 1int,
{
    let j = skip_ws(s, i);
    if j >= s.len() {
        return None;
    }
    if first && s[j] == B_RBRACE {
        return Some(j + 1);
    }
    if s[j] != B_QUOTE {
        return None;
    }
    match skip_string_body(s, j + 1) {
        None => None,
        Some(k) => {
            let c = skip_ws(s, k);
            if c >= s.len() {
                return None;
            }
            if s[c] != B_COLON {
                return None;
            }
            let m = skip_ws(s, c + 1);
            match skip_value(s, m) {
                None => None,
                Some(v) => {
                    let e = skip_ws(s, v);
                    if e >= s.len() {
                        return None;
                    }
                    if s[e] == B_RBRACE {
                        Some(e + 1)
                    } else if s[e] == B_COMMA {
                        skip_object_items(s, e + 1, false)
                    } else {
                        None
                    }
                },
            }
        },
    }
}

fn skip_array_items(s: &[u8], i: usize, first: bool) -> (r: Option<usize>)
    requires
        i <= s@.len(),
    ensures
        tok_ok(r, spec_skip_array_items(s@, i as int, first), i as int, s@.len() as int),
    decreases s@.len() - i, 1int,
{
    let j = skip_ws(s, i);
    if j >= s.len() {
        return None;
    }
    if first && s[j] == B_RBRACK {
        return Some(j + 1);
    }
    match skip_value(s, j) {
        None => None,
        Some(v) => {
            let e = skip_ws(s, v);
            if e >= s.len() {
                return None;
            }
            if s[e] == B_RBRACK {
                Some(e + 1)
            } else if s[e] == B_COMMA {
                skip_array_items(s, e + 1, false)
            } else {
                None
            }
        },
    }
}

fn fold_digits(s: &[u8], i: usize, end: usize, acc: u64) -> (r: Option<(u64, usize)>)
    requires
        i <= end <= s@.len(),
        forall|j: int| i <= j < end ==> is_digit(s@[j]),
    ensures
        match spec_fold_digits(s@, i as int, end as int, acc) {
            Some(p) => r matches Some(q) && q.0 == p.0 && q.1 == end && p.1 == end,
            None => r is None,
        },
    decreases end - i,
{
    if i >= end {
        return Some((acc, i));
    }
    let d = s[i] - 0x30;
    if acc > (u64::MAX - d as u64) / 10 {
        return None;
    }
    proof {
        assert(acc * 10 + d <= u64::MAX) by (nonlinear_arith)
            requires
                acc <= (u64::MAX - d as u64) / 10,
                0 <= d < 10,
        ;
    }
    fold_digits(s, i + 1, end, acc * 10 + d as u64)
}

fn parse_u64(s: &[u8], i: usize) -> (r: Option<(u64, usize)>)
    requires
        i <= s@.len(),
    ensures
        match spec_parse_u64(s@, i as int) {
            Some(p) => r matches Some(q) && q.0 == p.0 && q.1 as int == p.1 && i < p.1 <= s@.len(),
            None => r is None,
        },
{
    if i >= s.len() || !(0x30 <= s[i] && s[i] <= 0x39) {
        return None;
    }
    let end = if s[i] == B_ZERO {
        i + 1
    } else {
        skip_digits(s, i)
    };
    fold_digits(s, i, end, 0)
}

fn parse_user_items(s: &[u8], i: usize, first: bool, uid: Option<u64>) -> (r: Option<(u64, usize)>)
    requires
        i <= s@.len(),
    ensures
        match spec_parse_user_items(s@, i as int, first, uid) {
            Some(p) => r matches Some(q) && q.0 == p.0 && q.1 as int == p.1 && i < p.1 <= s@.len(),
            None => r is None,
        },
    decreases s@.len() - i, 0int,
{
    let j = skip_ws(s, i);
    if j >= s.len() {
        return None;
    }
    if first && s[j] == B_RBRACE {
        return match uid {
            Some(u) => Some((u, j + 1)),
            None => None,
        };
    }
    if s[j] != B_QUOTE {
        return None;
    }
    match skip_string_body(s, j + 1) {
        None => None,
        Some(k) => {
            let c = skip_ws(s, k);
            if c >= s.len() {
                return None;
            }
            if s[c] != B_COLON {
                return None;
            }
            let m = skip_ws(s, c + 1);
            let ghost key = s@.subrange(j + 1, k - 1);
            if k - 1 - (j + 1) == 1 + 1 && s[j + 1] == B_LOW_I && s[j + 2] == B_LOW_D {
                proof {
                    assert(key =~= seq![B_LOW_I, B_LOW_D]);
                }
                if uid.is_some() {
                    return None;
                }
                match parse_u64(s, m) {
                    None => None,
                    Some((u, v)) => parse_user_tail(s, m, v, Some(u)),
                }
            } else {
                proof {
                    assert(key != seq![B_LOW_I, B_LOW_D]) by {
                        if key == seq![B_LOW_I, B_LOW_D] {
                            assert(key.len() == 2);
                            assert(key[0] == B_LOW_I && key[1] == B_LOW_D);
                            assert(s@[j + 1] == B_LOW_I && s@[j + 2] == B_LOW_D);
                        }
                    }
                }
                match skip_value(s, m) {
                    None => None,
                    Some(v) => parse_user_tail(s, m, v, uid),
                }
            }
        },
    }
}

fn parse_user_tail(s: &[u8], m: usize, v: usize, uid: Option<u64>) -> (r: Option<(u64, usize)>)
    requires
        m < v <= s@.len(),
    ensures
        match spec_user_items_tail(s@, m as int, v as int, uid) {
            Some(p) => r matches Some(q) && q.0 == p.0 && q.1 as int == p.1 && m < p.1 <= s@.len(),
            None => r is None,
        },
    decreases s@.len() - m, 1int,
{
    let e = skip_ws(s, v);
    if e >= s.len() {
        return None;
    }
    if s[e] == B_RBRACE {
        match uid {
            Some(u) => Some((u, e + 1)),
            None => None,
        }
    } else if s[e] == B_COMMA {
        parse_user_items(s, e + 1, false, uid)
    } else {
        None
    }
}

fn parse_tweet_items(s: &[u8], i: usize, first: bool, id: Option<u64>, uid: Option<u64>) -> (r:
    Option<(Tweet, usize)>)
    requires
        i <= s@.len(),
    ensures
        match spec_parse_tweet_items(s@, i as int, first, id, uid) {
            Some(p) => r matches Some(q) && q.0 == p.0 && q.1 as int == p.1 && i < p.1 <= s@.len(),
            None => r is None,
        },
    decreases s@.len() - i, 0int,
{
    let j = skip_ws(s, i);
    if j >= s.len() {
        return None;
    }
    if first && s[j] == B_RBRACE {
        return match (id, uid) {
            (Some(idv), Some(uidv)) => Some((Tweet { id: idv, user: User { id: uidv } }, j + 1)),
            _ => None,
        };
    }
    if s[j] != B_QUOTE {
        return None;
    }
    match skip_string_body(s, j + 1) {
        None => None,
        Some(k) => {
            let c = skip_ws(s, k);
            if c >= s.len() {
                return None;
            }
            if s[c] != B_COLON {
                return None;
            }
            let m = skip_ws(s, c + 1);
            let ghost key = s@.subrange(j + 1, k - 1);
            if k - 1 - (j + 1) == 2 && s[j + 1] == B_LOW_I && s[j + 2] == B_LOW_D {
                proof {
                    assert(key =~= seq![B_LOW_I, B_LOW_D]);
                }
                if id.is_some() {
                    return None;
                }
                match parse_u64(s, m) {
                    None => None,
                    Some((val, v)) => parse_tweet_tail(s, m, v, Some(val), uid),
                }
            } else if k - 1 - (j + 1) == 4 && s[j + 1] == B_LOW_U && s[j + 2] == B_LOW_S && s[j + 3]
                == B_LOW_E && s[j + 4] == B_LOW_R {
                proof {
                    assert(key != seq![B_LOW_I, B_LOW_D]);
                    assert(key =~= seq![B_LOW_U, B_LOW_S, B_LOW_E, B_LOW_R]);
                }
                if uid.is_some() {
                    return None;
                }
                let u = skip_ws(s, m);
                if u >= s.len() {
                    return None;
                }
                if s[u] != B_LBRACE {
                    return None;
                }
                match parse_user_items(s, u + 1, true, None) {
                    None => None,
                    Some((uval, v)) => parse_tweet_tail(s, m, v, id, Some(uval)),
                }
            } else {
                proof {
                    assert(key != seq![B_LOW_I, B_LOW_D]) by {
                        if key == seq![B_LOW_I, B_LOW_D] {
                            assert(key.len() == 2);
                            assert(key[0] == B_LOW_I && key[1] == B_LOW_D);
                        }
                    }
                    assert(key != seq![B_LOW_U, B_LOW_S, B_LOW_E, B_LOW_R]) by {
                        if key == seq![B_LOW_U, B_LOW_S, B_LOW_E, B_LOW_R] {
                            assert(key.len() == 4);
                            assert(key[0] == B_LOW_U && key[1] == B_LOW_S && key[2] == B_LOW_E
                                && key[3] == B_LOW_R);
                        }
                    }
                }
                match skip_value(s, m) {
                    None => None,
                    Some(v) => parse_tweet_tail(s, m, v, id, uid),
                }
            }
        },
    }
}

fn parse_tweet_tail(s: &[u8], m: usize, v: usize, id: Option<u64>, uid: Option<u64>) -> (r: Option<
    (Tweet, usize),
>)
    requires
        m < v <= s@.len(),
    ensures
        match spec_tweet_items_tail(s@, m as int, v as int, id, uid) {
            Some(p) => r matches Some(q) && q.0 == p.0 && q.1 as int == p.1 && m < p.1 <= s@.len(),
            None => r is None,
        },
    decreases s@.len() - m, 1int,
{
    let e = skip_ws(s, v);
    if e >= s.len() {
        return None;
    }
    if s[e] == B_RBRACE {
        match (id, uid) {
            (Some(idv), Some(uidv)) => Some((Tweet { id: idv, user: User { id: uidv } }, e + 1)),
            _ => None,
        }
    } else if s[e] == B_COMMA {
        parse_tweet_items(s, e + 1, false, id, uid)
    } else {
        None
    }
}

fn parse_elems(s: &[u8], i: usize, first: bool, acc: &mut Vec<Tweet>) -> (r: Option<usize>)
    requires
        i <= s@.len(),
    ensures
        match spec_parse_elems(s@, i as int, first) {
            Some(p) => r matches Some(x) && x as int == p.1 && i < p.1 <= s@.len() && final(acc)@
                == old(acc)@ + p.0,
            None => r is None,
        },
    decreases s@.len() - i,
{
    let j = skip_ws(s, i);
    if j >= s.len() {
        return None;
    }
    if first && s[j] == B_RBRACK {
        proof {
            assert(acc@ =~= acc@ + Seq::<Tweet>::empty());
        }
        return Some(j + 1);
    }
    if s[j] != B_LBRACE {
        return None;
    }
    match parse_tweet_items(s, j + 1, true, None, None) {
        None => None,
        Some((tw, v)) => {
            let e = skip_ws(s, v);
            if e >= s.len() {
                return None;
            }
            if s[e] == B_RBRACK {
                acc.push(tw);
                proof {
                    assert(acc@ =~= old(acc)@ + seq![tw]);
                }
                Some(e + 1)
            } else if s[e] == B_COMMA {
                acc.push(tw);
                let r2 = parse_elems(s, e + 1, false, acc);
                match r2 {
                    None => None,
                    Some(x) => {
                        proof {
                            let rest = spec_parse_elems(s@, e + 1, false)->Some_0.0;
                            assert(acc@ =~= old(acc)@ + (seq![tw] + rest));
                        }
                        Some(x)
                    },
                }
            } else {
                None
            }
        },
    }
}

/// The decode stage: parses the response body as the payload grammar into
/// the reusable timeline buffer. The buffer is cleared before use, so the
/// outcome is a function of the body bytes alone, with no residue from a
/// prior cycle; `false` reports a format error, after which the buffer is
/// left empty.
pub fn parse_timeline(body: &[u8], timeline: &mut Vec<Tweet>) -> (r: bool)
    ensures
        r == (spec_parse_timeline(body@) is Some),
        r ==> Some(final(timeline)@) == spec_parse_timeline(body@),
        !r ==> final(timeline)@.len() == 0,
{
    timeline.clear();
    let j = skip_ws(body, 0);
    if j >= body.len() {
        timeline.clear();
        return false;
    }
    if body[j] != B_LBRACK {
        timeline.clear();
        return false;
    }
    match parse_elems(body, j + 1, true, timeline) {
        None => {
            timeline.clear();
            false
        },
        Some(end) => {
            if skip_ws(body, end) == body.len() {
                proof {
                    let p = spec_parse_elems(body@, j + 1, true)->Some_0;
                    assert(timeline@ =~= Seq::<Tweet>::empty() + p.0);
                    assert(timeline@ =~= p.0);
                }
                true
            } else {
                timeline.clear();
                false
            }
        },
    }
}

} // verus!
