//! Parsing JSON text into a value. The grammar is pinned down by spec
//! functions (`json_parse` and its helpers), and the executable
//! recursive-descent reader is proved to compute exactly that parse:
//! strict about escapes and surrogate pairs, numbers are 64-bit signed
//! integers without leading zeros, fractions or exponents.

use vstd::prelude::*;
use vstd::utf8::is_scalar;

use crate::json::{lemma_jv_list, lemma_jv_members, JsonMember, JsonValue, Jv};
use crate::render::{
    dec_chars, esc_char, hex_char, print_arr, print_int, print_jv, print_obj, print_str,
};

verus! {

broadcast use vstd::std_specs::vec::group_vec_axioms, vstd::seq::axiom_seq_index_decreases;

/// Whether `c` is JSON whitespace.
pub open spec fn is_ws_char(c: char) -> bool {
    c == ' ' || c == '\t' || c == '\n' || c == '\r'
}

/// Whether `c` is a decimal digit.
pub open spec fn is_digit_char(c: char) -> bool {
    48 <= c as u32 <= 57
}

/// The position of the first non-whitespace character at or after `pos`.
pub open spec fn spec_skip_ws(s: Seq<char>, pos: int) -> int
    decreases s.len() - pos,
{
    if pos < 0 || pos >= s.len() {
        pos
    } else if is_ws_char(s[pos]) {
        spec_skip_ws(s, pos + 1)
    } else {
        pos
    }
}

/// The position of the first non-whitespace character at or after `pos`.
fn skip_ws(s: &Vec<char>, pos: usize) -> (r: usize)
    requires
        pos <= s@.len(),
    ensures
        pos <= r <= s@.len(),
        r == spec_skip_ws(s@, pos as int),
{
    let mut i = pos;
    while i < s.len()
        invariant
            pos <= i <= s@.len(),
            spec_skip_ws(s@, pos as int) == spec_skip_ws(s@, i as int),
        decreases s@.len() - i,
    {
        let c = s[i];
        if !(c == ' ' || c == '\t' || c == '\n' || c == '\r') {
            return i;
        }
        i += 1;
    }
    i
}

/// The numeric value of a hexadecimal digit, if `c` is one.
pub open spec fn spec_hex_val(c: char) -> Option<u32> {
    let n = c as u32;
    if 48 <= n <= 57 {
        Some((n - 48) as u32)
    } else if 97 <= n <= 102 {
        Some((n - 87) as u32)
    } else if 65 <= n <= 70 {
        Some((n - 55) as u32)
    } else {
        None
    }
}

/// The numeric value of a hexadecimal digit.
fn hex_val(c: char) -> (r: Option<u32>)
    ensures
        r == spec_hex_val(c),
        r matches Some(d) ==> d < 16,
{
    let n = c as u32;
    if n >= 48 && n <= 57 {
        Some(n - 48)
    } else if n >= 97 && n <= 102 {
        Some(n - 97 + 10)
    } else if n >= 65 && n <= 70 {
        Some(n - 65 + 10)
    } else {
        None
    }
}

/// The value of the four hexadecimal digits at `pos`, if they are there.
pub open spec fn spec_hex4(s: Seq<char>, pos: int) -> Option<u32> {
    if pos < 0 || pos + 4 > s.len() {
        None
    } else {
        match (
            spec_hex_val(s[pos]),
            spec_hex_val(s[pos + 1]),
            spec_hex_val(s[pos + 2]),
            spec_hex_val(s[pos + 3]),
        ) {
            (Some(a), Some(b), Some(c), Some(d)) => Some(
                (((a * 16 + b) * 16 + c) * 16 + d) as u32,
            ),
            _ => None,
        }
    }
}

/// The four-digit hexadecimal number at `pos`.
fn parse_hex4(s: &Vec<char>, pos: usize) -> (r: Option<u32>)
    requires
        pos <= s@.len(),
    ensures
        r == spec_hex4(s@, pos as int),
        r matches Some(code) ==> code < 0x10000,
{
    if s.len() - pos < 4 {
        return None;
    }
    let a = match hex_val(s[pos]) {
        Some(d) => d,
        None => {
            return None;
        },
    };
    let b = match hex_val(s[pos + 1]) {
        Some(d) => d,
        None => {
            return None;
        },
    };
    let c = match hex_val(s[pos + 2]) {
        Some(d) => d,
        None => {
            return None;
        },
    };
    let d = match hex_val(s[pos + 3]) {
        Some(d) => d,
        None => {
            return None;
        },
    };
    Some(((a * 16 + b) * 16 + c) * 16 + d)
}

/// `c` written in front of the characters of a parsed string tail.
pub open spec fn str_cons(c: char, r: Option<(Seq<char>, int)>) -> Option<(Seq<char>, int)> {
    match r {
        Some((t, e)) => Some((seq![c] + t, e)),
        None => None,
    }
}

/// The body of a string literal from position `i` (just past the opening
/// quote) to its closing quote: the denoted characters and the position
/// after the quote. Escapes stand for their characters; a surrogate pair
/// denotes one supplementary character; lone surrogates, raw control
/// characters and an unterminated literal are rejected.
pub open spec fn spec_str_body(s: Seq<char>, i: int) -> Option<(Seq<char>, int)>
    decreases s.len() - i,
{
    if i < 0 || i >= s.len() {
        None
    } else if s[i] == '"' {
        Some((Seq::empty(), i + 1))
    } else if s[i] == '\\' {
        if i + 1 >= s.len() {
            None
        } else {
            let e = s[i + 1];
            if e == '"' || e == '\\' || e == '/' {
                str_cons(e, spec_str_body(s, i + 2))
            } else if e == 'b' {
                str_cons('\u{0008}', spec_str_body(s, i + 2))
            } else if e == 'f' {
                str_cons('\u{000c}', spec_str_body(s, i + 2))
            } else if e == 'n' {
                str_cons('\n', spec_str_body(s, i + 2))
            } else if e == 'r' {
                str_cons('\r', spec_str_body(s, i + 2))
            } else if e == 't' {
                str_cons('\t', spec_str_body(s, i + 2))
            } else if e == 'u' {
                match spec_hex4(s, i + 2) {
                    None => None,
                    Some(hi) => if 0xd800 <= hi <= 0xdbff {
                        if i + 8 > s.len() || s[i + 6] != '\\' || s[i + 7] != 'u' {
                            None
                        } else {
                            match spec_hex4(s, i + 8) {
                                None => None,
                                Some(lo) => if !(0xdc00 <= lo <= 0xdfff) {
                                    None
                                } else {
                                    str_cons(
                                        ((0x10000 + (hi - 0xd800) * 0x400 + (lo
                                            - 0xdc00)) as u32) as char,
                                        spec_str_body(s, i + 12),
                                    )
                                },
                            }
                        }
                    } else if !is_scalar(hi) {
                        None
                    } else {
                        str_cons(hi as char, spec_str_body(s, i + 6))
                    },
                }
            } else {
                None
            }
        }
    } else if (s[i] as u32) < 32 {
        None
    } else {
        str_cons(s[i], spec_str_body(s, i + 1))
    }
}

/// The string literal starting at the opening quote at `pos`: its denoted
/// characters and the position after the closing quote.
pub open spec fn spec_parse_string(s: Seq<char>, pos: int) -> Option<(Seq<char>, int)> {
    if pos < 0 || pos >= s.len() || s[pos] != '"' {
        None
    } else {
        spec_str_body(s, pos + 1)
    }
}

/// The string literal starting at the opening quote at `pos`.
#[verifier::loop_isolation(false)]
fn parse_string(s: &Vec<char>, pos: usize) -> (r: Option<(String, usize)>)
    requires
        pos < s@.len(),
    ensures
        match r {
            Some((st, p)) => spec_parse_string(s@, pos as int) == Some((st@, p as int)) && pos
                < p <= s@.len(),
            None => spec_parse_string(s@, pos as int) is None,
        },
{
    let n_all = s.len();
    if s[pos] != '"' {
        return None;
    }
    let mut out: Vec<char> = Vec::new();
    let mut i = pos + 1;
    while i < n_all
        invariant
            pos < i <= s@.len(),
            match spec_str_body(s@, i as int) {
                Some((t, e)) => spec_parse_string(s@, pos as int) == Some((out@ + t, e)),
                None => spec_parse_string(s@, pos as int) is None,
            },
        decreases s@.len() - i,
    {
        let c = s[i];
        if c == '"' {
            proof {
                assert(out@ + Seq::<char>::empty() =~= out@);
            }
            return Some((crate::text::chars_into_string(&out), i + 1));
        }
        if c == '\\' {
            if i + 1 >= n_all {
                return None;
            }
            let e = s[i + 1];
            if e == '"' || e == '\\' || e == '/' {
                out.push(e);
                i += 2;
            } else if e == 'b' {
                out.push('\u{0008}');
                i += 2;
            } else if e == 'f' {
                out.push('\u{000c}');
                i += 2;
            } else if e == 'n' {
                out.push('\n');
                i += 2;
            } else if e == 'r' {
                out.push('\r');
                i += 2;
            } else if e == 't' {
                out.push('\t');
                i += 2;
            } else if e == 'u' {
                let hi = match parse_hex4(s, i + 2) {
                    Some(x) => x,
                    None => {
                        return None;
                    },
                };
                if hi >= 0xd800 && hi <= 0xdbff {
                    // a high surrogate must pair with a following low one
                    if n_all - (i + 6) < 2 || s[i + 6] != '\\' || s[i + 7] != 'u' {
                        return None;
                    }
                    let lo = match parse_hex4(s, i + 8) {
                        Some(x) => x,
                        None => {
                            return None;
                        },
                    };
                    if !(lo >= 0xdc00 && lo <= 0xdfff) {
                        return None;
                    }
                    let code: u32 = 0x10000 + (hi - 0xd800) * 0x400 + (lo - 0xdc00);
                    proof {
                        assert(is_scalar(code));
                    }
                    match crate::text::char_from_u32(code) {
                        Some(ch) => {
                            out.push(ch);
                            i += 12;
                        },
                        None => {
                            return None;
                        },
                    }
                } else {
                    match crate::text::char_from_u32(hi) {
                        Some(ch) => {
                            out.push(ch);
                            i += 6;
                        },
                        None => {
                            return None;
                        },
                    }
                }
            } else {
                return None;
            }
            proof {
                let last = out@.last();
                assert(out@.drop_last() + (seq![last] + (spec_str_body(s@, i as int)->Some_0).0)
                    =~= out@ + (spec_str_body(s@, i as int)->Some_0).0);
            }
        } else if (c as u32) < 32 {
            // raw control characters are not allowed inside a string
            return None;
        } else {
            out.push(c);
            i += 1;
            proof {
                let last = out@.last();
                assert(out@.drop_last() + (seq![last] + (spec_str_body(s@, i as int)->Some_0).0)
                    =~= out@ + (spec_str_body(s@, i as int)->Some_0).0);
            }
        }
    }
    None
}

/// The position of the first non-digit character at or after `pos`.
pub open spec fn digits_end(s: Seq<char>, pos: int) -> int
    decreases s.len() - pos,
{
    if pos < 0 || pos >= s.len() || !is_digit_char(s[pos]) {
        pos
    } else {
        digits_end(s, pos + 1)
    }
}

/// Everything before the digit run's end is a digit, and the run ends at a
/// non-digit or at the end of the text.
pub proof fn lemma_digits_end(s: Seq<char>, pos: int)
    requires
        0 <= pos <= s.len(),
    ensures
        pos <= digits_end(s, pos) <= s.len(),
        forall|j: int| pos <= j < digits_end(s, pos) ==> is_digit_char(#[trigger] s[j]),
        digits_end(s, pos) < s.len() ==> !is_digit_char(s[digits_end(s, pos)]),
    decreases s.len() - pos,
{
    if pos < s.len() && is_digit_char(s[pos]) {
        lemma_digits_end(s, pos + 1);
    }
}

/// The number the digit characters in `[from, to)` denote.
pub open spec fn char_dec_num(s: Seq<char>, from: int, to: int) -> nat
    decreases to - from,
{
    if to <= from {
        0
    } else {
        (char_dec_num(s, from, to - 1) * 10 + (s[to - 1] as u32 - 48)) as nat
    }
}

/// A digit run's value grows, or stays, as digits are appended.
proof fn lemma_char_dec_mono(s: Seq<char>, from: int, i: int, to: int)
    requires
        from <= i <= to,
        forall|j: int| from <= j < to ==> is_digit_char(#[trigger] s[j]),
    ensures
        char_dec_num(s, from, to) >= char_dec_num(s, from, i),
    decreases to - i,
{
    if i < to {
        lemma_char_dec_mono(s, from, i + 1, to);
        assert(char_dec_num(s, from, i) * 10 >= char_dec_num(s, from, i)) by (nonlinear_arith);
    }
}

/// The integer literal at `pos`: an optional minus sign and a digit run
/// without leading zeros, denoting a value that fits 64 signed bits, not
/// followed by a fraction or exponent.
pub open spec fn spec_parse_number(s: Seq<char>, pos: int) -> Option<(int, int)> {
    if pos < 0 || pos >= s.len() {
        None
    } else {
        let neg = s[pos] == '-';
        let start = if neg {
            pos + 1
        } else {
            pos
        };
        if start >= s.len() || !is_digit_char(s[start]) {
            None
        } else if s[start] == '0' && start + 1 < s.len() && is_digit_char(s[start + 1]) {
            None
        } else {
            let end = digits_end(s, start);
            if end < s.len() && (s[end] == '.' || s[end] == 'e' || s[end] == 'E') {
                None
            } else {
                let mag = char_dec_num(s, start, end);
                if neg {
                    if mag <= 0x8000000000000000 {
                        Some((-(mag as int), end))
                    } else {
                        None
                    }
                } else {
                    if mag <= 0x7fffffffffffffff {
                        Some((mag as int, end))
                    } else {
                        None
                    }
                }
            }
        }
    }
}

/// The integer literal starting at `pos`.
#[verifier::loop_isolation(false)]
fn parse_number(s: &Vec<char>, pos: usize) -> (r: Option<(i64, usize)>)
    requires
        pos < s@.len(),
    ensures
        match r {
            Some((v, p)) => spec_parse_number(s@, pos as int) == Some((v as int, p as int))
                && pos < p <= s@.len(),
            None => spec_parse_number(s@, pos as int) is None,
        },
{
    let n_all = s.len();
    let negative = s[pos] == '-';
    let start = if negative {
        pos + 1
    } else {
        pos
    };
    if start >= n_all {
        return None;
    }
    let c0 = s[start] as u32;
    if c0 < 48 || c0 > 57 {
        return None;
    }
    if s[start] == '0' && start + 1 < n_all {
        let c1 = s[start + 1] as u32;
        if c1 >= 48 && c1 <= 57 {
            return None;
        }
    }
    proof {
        lemma_digits_end(s@, start as int);
        lemma_digits_end(s@, start as int + 1);
        assert(digits_end(s@, start as int) == digits_end(s@, start as int + 1));
    }
    let ghost end = digits_end(s@, start as int);
    let limit: u64 = if negative {
        9223372036854775808u64
    } else {
        9223372036854775807u64
    };
    let mut mag: u64 = 0;
    let mut i = start;
    while i < n_all
        invariant
            start <= i <= s@.len(),
            mag <= limit,
            mag as nat == char_dec_num(s@, start as int, i as int),
            forall|j: int| start <= j < i ==> is_digit_char(#[trigger] s@[j]),
            end == digits_end(s@, i as int),
        decreases s@.len() - i,
    {
        let n = s[i] as u32;
        if n >= 48 && n <= 57 {
            let d = (n - 48) as u64;
            if mag > (limit - d) / 10 {
                proof {
                    assert(mag * 10 + d > limit) by (nonlinear_arith)
                        requires
                            mag > (limit - d) / 10,
                            d <= 9,
                    ;
                    lemma_digits_end(s@, i as int);
                    lemma_char_dec_mono(s@, start as int, i + 1, end);
                }
                return None;
            }
            proof {
                assert(mag * 10 + d <= limit) by (nonlinear_arith)
                    requires
                        mag <= (limit - d) / 10,
                        d <= 9,
                        limit <= 9223372036854775808u64,
                ;
            }
            mag = mag * 10 + d;
            i += 1;
        } else {
            break ;
        }
    }
    proof {
        assert(end == i as int);
    }
    // a fraction or exponent is not representable here
    if i < n_all && (s[i] == '.' || s[i] == 'e' || s[i] == 'E') {
        return None;
    }
    if negative {
        let value: i64 = if mag == 9223372036854775808u64 {
            i64::MIN
        } else {
            -(mag as i64)
        };
        Some((value, i))
    } else {
        Some((mag as i64, i))
    }
}

/// The JSON value at `pos`, after leading whitespace: the value's model and
/// the position just past its text. An object's members are kept in their
/// written order, duplicates included.
pub open spec fn spec_value(s: Seq<char>, pos: int) -> Option<(Jv, int)>
    decreases s.len() - pos, 0int,
{
    if pos < 0 || pos > s.len() {
        None
    } else {
        let p = spec_skip_ws(s, pos);
        if p >= s.len() || p < pos {
            None
        } else {
            let c = s[p];
            if c == 'n' {
                if p + 4 <= s.len() && s[p + 1] == 'u' && s[p + 2] == 'l' && s[p + 3] == 'l' {
                    Some((Jv::Null, p + 4))
                } else {
                    None
                }
            } else if c == 't' {
                if p + 4 <= s.len() && s[p + 1] == 'r' && s[p + 2] == 'u' && s[p + 3] == 'e' {
                    Some((Jv::Bool(true), p + 4))
                } else {
                    None
                }
            } else if c == 'f' {
                if p + 5 <= s.len() && s[p + 1] == 'a' && s[p + 2] == 'l' && s[p + 3] == 's' && s[p
                    + 4] == 'e' {
                    Some((Jv::Bool(false), p + 5))
                } else {
                    None
                }
            } else if c == '"' {
                match spec_parse_string(s, p) {
                    Some((cs, q)) => Some((Jv::Str(cs), q)),
                    None => None,
                }
            } else if c == '-' || is_digit_char(c) {
                match spec_parse_number(s, p) {
                    Some((v, q)) => Some((Jv::Int(v), q)),
                    None => None,
                }
            } else if c == '[' {
                let q = spec_skip_ws(s, p + 1);
                if q < s.len() && s[q] == ']' {
                    Some((Jv::Arr(Seq::empty()), q + 1))
                } else if q <= pos || q > s.len() {
                    None
                } else {
                    match spec_elems(s, q, Seq::empty()) {
                        Some((items, e)) => Some((Jv::Arr(items), e)),
                        None => None,
                    }
                }
            } else if c == '{' {
                let q = spec_skip_ws(s, p + 1);
                if q < s.len() && s[q] == '}' {
                    Some((Jv::Obj(Seq::empty()), q + 1))
                } else if q <= pos || q > s.len() {
                    None
                } else {
                    match spec_members(s, q, Seq::empty()) {
                        Some((ms, e)) => Some((Jv::Obj(ms), e)),
                        None => None,
                    }
                }
            } else {
                None
            }
        }
    }
}

/// The remaining elements of an array from `pos` on, appended to `acc`:
/// values separated by commas until the closing bracket. (The bound checks
/// against positions that did not advance can never be reached; they only
/// ground the recursion.)
pub open spec fn spec_elems(s: Seq<char>, pos: int, acc: Seq<Jv>) -> Option<(Seq<Jv>, int)>
    decreases s.len() - pos, 1int,
{
    if pos < 0 || pos > s.len() {
        None
    } else {
        match spec_value(s, pos) {
            None => None,
            Some((v, q2)) => if q2 <= pos || q2 > s.len() {
                None
            } else {
                let q = spec_skip_ws(s, q2);
                if q >= s.len() || q < q2 {
                    None
                } else if s[q] == ']' {
                    Some((acc.push(v), q + 1))
                } else if s[q] == ',' {
                    if q + 1 <= pos {
                        None
                    } else {
                        spec_elems(s, q + 1, acc.push(v))
                    }
                } else {
                    None
                }
            },
        }
    }
}

/// The remaining members of an object from `pos` on, appended to `acc`:
/// `"key": value` pairs separated by commas until the closing brace.
pub open spec fn spec_members(s: Seq<char>, pos: int, acc: Seq<(Seq<char>, Jv)>) -> Option<
    (Seq<(Seq<char>, Jv)>, int),
>
    decreases s.len() - pos, 1int,
{
    if pos < 0 || pos > s.len() {
        None
    } else {
        let qk = spec_skip_ws(s, pos);
        if qk >= s.len() || qk < pos {
            None
        } else {
            match spec_parse_string(s, qk) {
                None => None,
                Some((key, q2)) => if q2 > s.len() {
                    None
                } else {
                    let q3 = spec_skip_ws(s, q2);
                    if q3 >= s.len() || q3 < q2 || s[q3] != ':' {
                        None
                    } else if q3 + 1 <= pos {
                        None
                    } else {
                        match spec_value(s, q3 + 1) {
                            None => None,
                            Some((v, q4)) => if q4 > s.len() {
                                None
                            } else {
                                let q = spec_skip_ws(s, q4);
                                if q >= s.len() || q < q4 {
                                    None
                                } else if s[q] == '}' {
                                    Some((acc.push((key, v)), q + 1))
                                } else if s[q] == ',' {
                                    if q + 1 <= pos {
                                        None
                                    } else {
                                        spec_members(s, q + 1, acc.push((key, v)))
                                    }
                                } else {
                                    None
                                }
                            },
                        }
                    }
                },
            }
        }
    }
}

/// A printed value standing at `pos`, followed by a number boundary,
/// parses back to exactly itself.
#[verifier::rlimit(100)]
#[verifier::spinoff_prover]
pub proof fn lemma_value_print(j: Jv, s: Seq<char>, pos: int)
    requires
        jv_wf(j),
        0 <= pos,
        pos + print_jv(j).len() <= s.len(),
        s.subrange(pos, pos + print_jv(j).len() as int) == print_jv(j),
        num_boundary(s, pos + print_jv(j).len()),
    ensures
        spec_value(s, pos) == Some((j, pos + print_jv(j).len())),
    decreases j, 0int,
{
    lemma_print_at(s, pos, print_jv(j));
    lemma_print_head(j);
    assert(s[pos + 0] == print_jv(j)[0]);
    assert(spec_skip_ws(s, pos) == pos);
    match j {
        Jv::Null => {
            assert(s[pos + 0] == 'n' && s[pos + 1] == 'u' && s[pos + 2] == 'l' && s[pos + 3]
                == 'l');
        },
        Jv::Bool(b) => {
            if b {
                assert(s[pos + 0] == 't' && s[pos + 1] == 'r' && s[pos + 2] == 'u' && s[pos + 3]
                    == 'e');
            } else {
                assert(s[pos + 0] == 'f' && s[pos + 1] == 'a' && s[pos + 2] == 'l' && s[pos + 3]
                    == 's' && s[pos + 4] == 'e');
            }
        },
        Jv::Int(n) => {
            lemma_number_print(n, s, pos);
            if n < 0 {
                assert(print_int(n)[0] == '-');
            } else {
                lemma_dec_chars_digits(n as nat);
                assert(print_int(n)[0] == dec_chars(n as nat)[0]);
            }
        },
        Jv::Str(cs) => {
            lemma_string_print(cs, s, pos);
        },
        Jv::Arr(items) => {
            if items.len() == 0 {
                assert(print_arr(items, 0) =~= Seq::<char>::empty());
                assert(print_jv(j) =~= seq!['['] + Seq::<char>::empty() + seq![']']);
                assert(s[pos + 1] == print_jv(j)[1]);
                assert(print_jv(j)[1] == ']');
                assert(spec_skip_ws(s, pos + 1) == pos + 1);
                assert(items =~= Seq::<Jv>::empty());
            } else {
                let pa = print_arr(items, 0);
                assert(print_jv(j) =~= (seq!['['] + pa) + seq![']']);
                lemma_subrange_split(s, pos, seq!['['] + pa, seq![']']);
                assert((seq!['['] + pa).subrange(0, 1) =~= seq!['[']);
                lemma_subrange_split(s, pos, seq!['['], pa);
                assert(s[pos + 1 + pa.len() + 0] == (seq![']'])[0]);
                lemma_jv_arr_wf(items, 0, 0);
                lemma_print_head(items[0]);
                assert(pa[0] == print_jv(items[0])[0]);
                assert(s[pos + 1 + 0] == pa[0]);
                assert(spec_skip_ws(s, pos + 1) == pos + 1);
                lemma_elems_print(items, 0, Seq::empty(), s, pos + 1);
                assert(Seq::empty() + items.skip(0) =~= items);
            }
        },
        Jv::Obj(ms) => {
            if ms.len() == 0 {
                assert(print_obj(ms, 0) =~= Seq::<char>::empty());
                assert(print_jv(j) =~= seq!['{'] + Seq::<char>::empty() + seq!['}']);
                assert(s[pos + 1] == print_jv(j)[1]);
                assert(print_jv(j)[1] == '}');
                assert(spec_skip_ws(s, pos + 1) == pos + 1);
                assert(ms =~= Seq::<(Seq<char>, Jv)>::empty());
            } else {
                let po = print_obj(ms, 0);
                assert(print_jv(j) =~= (seq!['{'] + po) + seq!['}']);
                lemma_subrange_split(s, pos, seq!['{'] + po, seq!['}']);
                lemma_subrange_split(s, pos, seq!['{'], po);
                assert(s[pos + 1 + po.len() + 0] == (seq!['}'])[0]);
                assert(po[0] == '"');
                assert(s[pos + 1 + 0] == po[0]);
                assert(spec_skip_ws(s, pos + 1) == pos + 1);
                lemma_members_print(ms, 0, Seq::empty(), s, pos + 1);
                assert(Seq::empty() + ms.skip(0) =~= ms);
            }
        },
    }
}

/// The printed elements of an array from `k` on, standing at `pos` and
/// closed by a bracket, parse back to exactly those elements.
#[verifier::rlimit(100)]
#[verifier::spinoff_prover]
pub proof fn lemma_elems_print(items: Seq<Jv>, k: int, acc: Seq<Jv>, s: Seq<char>, pos: int)
    requires
        0 <= k < items.len(),
        jv_arr_wf(items, 0),
        0 <= pos,
        pos + print_arr(items, k).len() + 1 <= s.len(),
        s.subrange(pos, pos + print_arr(items, k).len() as int) == print_arr(items, k),
        s[pos + print_arr(items, k).len()] == ']',
    ensures
        spec_elems(s, pos, acc) == Some(
            (acc + items.skip(k), pos + print_arr(items, k).len() + 1),
        ),
    decreases items, items.len() - k,
{
    lemma_jv_arr_wf(items, 0, k);
    lemma_print_head(items[k]);
    let pv = print_jv(items[k]);
    if k + 1 < items.len() {
        let tail = seq![','] + print_arr(items, k + 1);
        assert(print_arr(items, k) == pv + tail);
        lemma_subrange_split(s, pos, pv, tail);
        assert(s[pos + pv.len() + 0] == tail[0]);
        assert(tail[0] == ',');
        assert(num_boundary(s, pos + pv.len()));
        lemma_value_print(items[k], s, pos);
        let q2 = pos + pv.len() as int;
        assert(spec_skip_ws(s, q2) == q2);
        lemma_subrange_split(s, q2, seq![','], print_arr(items, k + 1));
        assert(s[q2 + 1 + print_arr(items, k + 1).len()] == ']');
        lemma_elems_print(items, k + 1, acc.push(items[k]), s, q2 + 1);
        assert(acc.push(items[k]) + items.skip(k + 1) =~= acc + items.skip(k));
    } else {
        assert(pv + Seq::<char>::empty() =~= pv);
        assert(print_arr(items, k) == pv);
        assert(num_boundary(s, pos + pv.len()));
        lemma_value_print(items[k], s, pos);
        let q2 = pos + pv.len() as int;
        assert(spec_skip_ws(s, q2) == q2);
        assert(acc.push(items[k]) =~= acc + items.skip(k));
    }
}

/// The printed members of an object from `k` on, standing at `pos` and
/// closed by a brace, parse back to exactly those members.
#[verifier::rlimit(100)]
#[verifier::spinoff_prover]
pub proof fn lemma_members_print(
    ms: Seq<(Seq<char>, Jv)>,
    k: int,
    acc: Seq<(Seq<char>, Jv)>,
    s: Seq<char>,
    pos: int,
)
    requires
        0 <= k < ms.len(),
        jv_obj_wf(ms, 0),
        0 <= pos,
        pos + print_obj(ms, k).len() + 1 <= s.len(),
        s.subrange(pos, pos + print_obj(ms, k).len() as int) == print_obj(ms, k),
        s[pos + print_obj(ms, k).len()] == '}',
    ensures
        spec_members(s, pos, acc) == Some(
            (acc + ms.skip(k), pos + print_obj(ms, k).len() + 1),
        ),
    decreases ms, ms.len() - k,
{
    lemma_jv_obj_wf(ms, 0, k);
    lemma_print_head(ms[k].1);
    let key = ms[k].0;
    let v = ms[k].1;
    let sl = seq!['"'] + print_str(key, 0) + seq!['"'];
    let pv = print_jv(v);
    let tail: Seq<char> = if k + 1 < ms.len() {
        seq![','] + print_obj(ms, k + 1)
    } else {
        Seq::empty()
    };
    assert(print_obj(ms, k) =~= sl + (seq![':'] + (pv + tail)));
    lemma_subrange_split(s, pos, sl, seq![':'] + (pv + tail));
    assert(s.subrange(pos, pos + sl.len() as int) == sl);
    lemma_string_print(key, s, pos);
    let q2 = pos + sl.len() as int;
    assert(s[q2 + 0] == (seq![':'] + (pv + tail))[0]);
    assert((seq![':'] + (pv + tail))[0] == ':');
    assert(spec_skip_ws(s, pos) == pos) by {
        assert(s[pos + 0] == sl[0]);
    }
    assert(spec_skip_ws(s, q2) == q2);
    lemma_subrange_split(s, q2, seq![':'], pv + tail);
    lemma_subrange_split(s, q2 + 1, pv, tail);
    let q4 = q2 + 1 + pv.len() as int;
    if k + 1 < ms.len() {
        assert(s[q4 + 0] == tail[0]);
        assert(tail[0] == ',');
        assert(num_boundary(s, q4));
        lemma_value_print(v, s, q2 + 1);
        assert(spec_skip_ws(s, q4) == q4);
        lemma_subrange_split(s, q4, seq![','], print_obj(ms, k + 1));
        assert(s[q4 + 1 + print_obj(ms, k + 1).len()] == '}');
        lemma_members_print(ms, k + 1, acc.push((key, v)), s, q4 + 1);
        assert(acc.push((key, v)) + ms.skip(k + 1) =~= acc + ms.skip(k));
        assert(acc.push(ms[k]) == acc.push((key, v)));
    } else {
        assert(pv + Seq::<char>::empty() =~= pv);
        assert(num_boundary(s, q4));
        lemma_value_print(v, s, q2 + 1);
        assert(spec_skip_ws(s, q4) == q4);
        assert(acc.push((key, v)) =~= acc + ms.skip(k));
    }
}

/// A printed value parses back to exactly itself: the renderer and the
/// parser grammar are inverse on every well-formed value.
pub proof fn lemma_json_parse_print(j: Jv)
    requires
        jv_wf(j),
    ensures
        json_parse(print_jv(j)) == Some(j),
{
    let s = print_jv(j);
    assert(s.subrange(0, s.len() as int) =~= s);
    lemma_value_print(j, s, 0);
}

/// The value starting at `pos`, after leading whitespace.
#[verifier::loop_isolation(false)]
pub fn parse_value(s: &Vec<char>, pos: usize) -> (r: Option<(JsonValue, usize)>)
    requires
        pos <= s@.len(),
    ensures
        match r {
            Some((v, p)) => spec_value(s@, pos as int) == Some((v.jv(), p as int)) && pos < p
                <= s@.len(),
            None => spec_value(s@, pos as int) is None,
        },
    decreases s@.len() - pos,
{
    let n_all = s.len();
    let p = skip_ws(s, pos);
    if p >= n_all {
        return None;
    }
    let c = s[p];
    if c == 'n' {
        if n_all - p >= 4 && s[p + 1] == 'u' && s[p + 2] == 'l' && s[p + 3] == 'l' {
            Some((JsonValue::Null, p + 4))
        } else {
            None
        }
    } else if c == 't' {
        if n_all - p >= 4 && s[p + 1] == 'r' && s[p + 2] == 'u' && s[p + 3] == 'e' {
            Some((JsonValue::Bool(true), p + 4))
        } else {
            None
        }
    } else if c == 'f' {
        if n_all - p >= 5 && s[p + 1] == 'a' && s[p + 2] == 'l' && s[p + 3] == 's' && s[p + 4]
            == 'e' {
            Some((JsonValue::Bool(false), p + 5))
        } else {
            None
        }
    } else if c == '"' {
        match parse_string(s, p) {
            Some((text, q)) => Some((JsonValue::Str(text), q)),
            None => None,
        }
    } else if c == '-' || ((c as u32) >= 48 && (c as u32) <= 57) {
        match parse_number(s, p) {
            Some((n, q)) => Some((JsonValue::Int(n), q)),
            None => None,
        }
    } else if c == '[' {
        let mut items: Vec<JsonValue> = Vec::new();
        proof {
            lemma_jv_list(items, 0);
            assert(JsonValue::jv_list(items, 0) =~= Seq::<Jv>::empty());
        }
        let mut q = skip_ws(s, p + 1);
        if q < n_all && s[q] == ']' {
            return Some((JsonValue::Array(items), q + 1));
        }
        loop
            invariant
                pos < q <= s@.len(),
                spec_value(s@, pos as int) == (match spec_elems(
                    s@,
                    q as int,
                    JsonValue::jv_list(items, 0),
                ) {
                    Some((elems, e)) => Some((Jv::Arr(elems), e)),
                    None => None::<(Jv, int)>,
                }),
            decreases s@.len() - q,
        {
            let (v, q2) = match parse_value(s, q) {
                Some(x) => x,
                None => {
                    return None;
                },
            };
            let ghost old_items = items;
            let ghost acc = JsonValue::jv_list(items, 0);
            items.push(v);
            proof {
                lemma_jv_list(old_items, 0);
                lemma_jv_list(items, 0);
                assert(JsonValue::jv_list(items, 0) =~= acc.push(v.jv()));
            }
            q = skip_ws(s, q2);
            if q >= n_all {
                return None;
            }
            if s[q] == ']' {
                return Some((JsonValue::Array(items), q + 1));
            }
            if s[q] != ',' {
                return None;
            }
            q += 1;
        }
    } else if c == '{' {
        let mut fields: Vec<JsonMember> = Vec::new();
        proof {
            lemma_jv_members(fields, 0);
            assert(JsonValue::jv_members(fields, 0) =~= Seq::<(Seq<char>, Jv)>::empty());
        }
        let mut q = skip_ws(s, p + 1);
        if q < n_all && s[q] == '}' {
            return Some((JsonValue::Object(fields), q + 1));
        }
        loop
            invariant
                pos < q <= s@.len(),
                spec_value(s@, pos as int) == (match spec_members(
                    s@,
                    q as int,
                    JsonValue::jv_members(fields, 0),
                ) {
                    Some((ms, e)) => Some((Jv::Obj(ms), e)),
                    None => None::<(Jv, int)>,
                }),
            decreases s@.len() - q,
        {
            let qk = skip_ws(s, q);
            if qk >= n_all {
                return None;
            }
            let (key, q2) = match parse_string(s, qk) {
                Some(x) => x,
                None => {
                    return None;
                },
            };
            let q3 = skip_ws(s, q2);
            if q3 >= n_all || s[q3] != ':' {
                return None;
            }
            let (v, q4) = match parse_value(s, q3 + 1) {
                Some(x) => x,
                None => {
                    return None;
                },
            };
            let ghost old_fields = fields;
            let ghost acc = JsonValue::jv_members(fields, 0);
            let ghost keyv = key@;
            fields.push(JsonMember { key, value: v });
            proof {
                lemma_jv_members(old_fields, 0);
                lemma_jv_members(fields, 0);
                assert(JsonValue::jv_members(fields, 0) =~= acc.push((keyv, v.jv())));
            }
            q = skip_ws(s, q4);
            if q >= n_all {
                return None;
            }
            if s[q] == '}' {
                return Some((JsonValue::Object(fields), q + 1));
            }
            if s[q] != ',' {
                return None;
            }
            q += 1;
        }
    } else {
        None
    }
}

/// The value the whole text denotes: one JSON value, optionally surrounded
/// by whitespace, or nothing if the text breaks the grammar.
pub open spec fn json_parse(s: Seq<char>) -> Option<Jv> {
    match spec_value(s, 0) {
        Some((v, p)) => if spec_skip_ws(s, p) == s.len() {
            Some(v)
        } else {
            None
        },
        None => None,
    }
}

/// The value the whole text denotes, or nothing if the text breaks the
/// grammar.
pub fn parse_text(s: &str) -> (r: Option<JsonValue>)
    ensures
        match r {
            Some(v) => json_parse(s@) == Some(v.jv()),
            None => json_parse(s@) is None,
        },
{
    let chars = crate::text::str_to_chars(s);
    match parse_value(&chars, 0) {
        Some((v, p)) => {
            let q = skip_ws(&chars, p);
            if q == chars.len() {
                Some(v)
            } else {
                None
            }
        },
        None => None,
    }
}

/// Values whose integers fit 64 signed bits, throughout the tree. Every
/// `JsonValue`'s model is well-formed.
pub open spec fn jv_wf(j: Jv) -> bool
    decreases j, 0int,
{
    match j {
        Jv::Int(n) => i64::MIN <= n <= i64::MAX,
        Jv::Arr(items) => jv_arr_wf(items, 0),
        Jv::Obj(ms) => jv_obj_wf(ms, 0),
        _ => true,
    }
}

/// Well-formedness of the elements of `items` from `i` on.
pub open spec fn jv_arr_wf(items: Seq<Jv>, i: int) -> bool
    decreases items, items.len() - i,
{
    if i < 0 || i >= items.len() {
        true
    } else {
        jv_wf(items[i]) && jv_arr_wf(items, i + 1)
    }
}

/// Well-formedness of the member values of `ms` from `i` on.
pub open spec fn jv_obj_wf(ms: Seq<(Seq<char>, Jv)>, i: int) -> bool
    decreases ms, ms.len() - i,
{
    if i < 0 || i >= ms.len() {
        true
    } else {
        jv_wf(ms[i].1) && jv_obj_wf(ms, i + 1)
    }
}

/// Each element of a well-formed list is well-formed.
proof fn lemma_jv_arr_wf(items: Seq<Jv>, i: int, j: int)
    requires
        jv_arr_wf(items, i),
        0 <= i <= j < items.len(),
    ensures
        jv_wf(items[j]),
        jv_arr_wf(items, j),
    decreases j - i,
{
    if i < j {
        lemma_jv_arr_wf(items, i + 1, j);
    }
}

/// Each member value of a well-formed member list is well-formed.
proof fn lemma_jv_obj_wf(ms: Seq<(Seq<char>, Jv)>, i: int, j: int)
    requires
        jv_obj_wf(ms, i),
        0 <= i <= j < ms.len(),
    ensures
        jv_wf(ms[j].1),
        jv_obj_wf(ms, j),
    decreases j - i,
{
    if i < j {
        lemma_jv_obj_wf(ms, i + 1, j);
    }
}

/// A list whose elements are well-formed from `i` on is well-formed from
/// `i` on.
pub proof fn lemma_jv_arr_wf_build(items: Seq<Jv>, i: int)
    requires
        forall|j: int| i <= j < items.len() ==> jv_wf(#[trigger] items[j]),
    ensures
        jv_arr_wf(items, i),
    decreases items.len() - i,
{
    if 0 <= i && i < items.len() {
        lemma_jv_arr_wf_build(items, i + 1);
    }
}

/// A member list whose values are well-formed from `i` on is well-formed
/// from `i` on.
pub proof fn lemma_jv_obj_wf_build(ms: Seq<(Seq<char>, Jv)>, i: int)
    requires
        forall|j: int| i <= j < ms.len() ==> jv_wf(#[trigger] ms[j].1),
    ensures
        jv_obj_wf(ms, i),
    decreases ms.len() - i,
{
    if 0 <= i && i < ms.len() {
        lemma_jv_obj_wf_build(ms, i + 1);
    }
}

/// Every in-memory value's model is well-formed: its integers are 64-bit.
pub proof fn lemma_jsonvalue_wf(v: JsonValue)
    ensures
        jv_wf(v.jv()),
    decreases v,
{
    match v {
        JsonValue::Array(items) => {
            lemma_jv_list(items, 0);
            let els = JsonValue::jv_list(items, 0);
            assert forall|j: int| 0 <= j < els.len() implies jv_wf(#[trigger] els[j]) by {
                assert(els[j] == items[j].jv());
                lemma_jsonvalue_wf(items[j]);
            }
            lemma_jv_arr_wf_build(els, 0);
        },
        JsonValue::Object(fields) => {
            lemma_jv_members(fields, 0);
            let ms = JsonValue::jv_members(fields, 0);
            assert forall|j: int| 0 <= j < ms.len() implies jv_wf(#[trigger] ms[j].1) by {
                assert(ms[j] == (fields[j].key@, fields[j].value.jv()));
                lemma_jsonvalue_wf(fields[j].value);
            }
            lemma_jv_obj_wf_build(ms, 0);
        },
        _ => {},
    }
}

/// Whether position `k` does not continue a number: the end of the text, or
/// a character that is neither a digit nor a fraction or exponent mark.
pub open spec fn num_boundary(s: Seq<char>, k: int) -> bool {
    k == s.len() || (!is_digit_char(s[k]) && s[k] != '.' && s[k] != 'e' && s[k] != 'E')
}

/// A text carrying `a + b` at `pos` carries `a` at `pos` and `b` after it.
proof fn lemma_subrange_split(s: Seq<char>, pos: int, a: Seq<char>, b: Seq<char>)
    requires
        0 <= pos,
        pos + a.len() + b.len() <= s.len(),
        s.subrange(pos, pos + a.len() + b.len()) == a + b,
    ensures
        s.subrange(pos, pos + a.len() as int) == a,
        s.subrange(pos + a.len() as int, pos + a.len() + b.len()) == b,
        forall|i: int| 0 <= i < a.len() ==> s[pos + i] == #[trigger] a[i],
        forall|i: int| 0 <= i < b.len() ==> s[pos + a.len() + i] == #[trigger] b[i],
{
    assert forall|i: int| 0 <= i < a.len() implies s[pos + i] == #[trigger] a[i] by {
        assert(s.subrange(pos, pos + a.len() + b.len())[i] == s[pos + i]);
        assert((a + b)[i] == a[i]);
    }
    assert forall|i: int| 0 <= i < b.len() implies s[pos + a.len() + i] == #[trigger] b[i] by {
        assert(s.subrange(pos, pos + a.len() + b.len())[a.len() + i] == s[pos + a.len() + i]);
        assert((a + b)[a.len() + i] == b[i]);
    }
    assert(s.subrange(pos, pos + a.len() as int) =~= a);
    assert(s.subrange(pos + a.len() as int, pos + a.len() + b.len()) =~= b);
}

/// The characters of a printed value are at `pos`, index by index.
proof fn lemma_print_at(s: Seq<char>, pos: int, t: Seq<char>)
    requires
        0 <= pos,
        pos + t.len() <= s.len(),
        s.subrange(pos, pos + t.len() as int) == t,
    ensures
        forall|i: int| 0 <= i < t.len() ==> s[pos + i] == #[trigger] t[i],
{
    assert forall|i: int| 0 <= i < t.len() implies s[pos + i] == #[trigger] t[i] by {
        assert(s.subrange(pos, pos + t.len() as int)[i] == s[pos + i]);
    }
}

/// A printed value is non-empty, and its first character opens no other
/// grammar production: it is never whitespace, a comma, a closing bracket
/// or brace, or a colon.
proof fn lemma_print_head(j: Jv)
    ensures
        print_jv(j).len() >= 1,
        !is_ws_char(print_jv(j)[0]),
        print_jv(j)[0] != ',',
        print_jv(j)[0] != ']',
        print_jv(j)[0] != '}',
        print_jv(j)[0] != ':',
{
    match j {
        Jv::Int(n) => {
            lemma_dec_chars_digits(if n < 0 {
                (-n) as nat
            } else {
                n as nat
            });
        },
        _ => {},
    }
}

/// The decimal characters of `n`: at least one, all digits, no leading
/// zero unless `n` is zero, and they denote `n` wherever they stand.
proof fn lemma_dec_chars_digits(n: nat)
    ensures
        dec_chars(n).len() >= 1,
        forall|i: int| 0 <= i < dec_chars(n).len() ==> is_digit_char(#[trigger] dec_chars(n)[i]),
        n >= 1 ==> dec_chars(n)[0] != '0',
        n == 0 ==> dec_chars(n) == seq!['0'],
    decreases n,
{
    if n < 10 {
        assert(dec_chars(n) =~= seq![((48 + n) as u8) as char]);
        if n == 0 {
            assert(dec_chars(0) =~= seq!['0']);
        }
    } else {
        lemma_dec_chars_digits(n / 10);
        let t = dec_chars(n / 10);
        let d = dec_chars(n);
        assert(d == t.push(((48 + n % 10) as u8) as char));
        assert forall|i: int| 0 <= i < d.len() implies is_digit_char(#[trigger] d[i]) by {
            if i < t.len() {
                assert(d[i] == t[i]);
            }
        }
        assert(d[0] == t[0]);
    }
}

/// Digit characters standing at `[from, to)` denote the number they print.
proof fn lemma_char_dec_of_chars(n: nat, s: Seq<char>, from: int, to: int)
    requires
        0 <= from,
        to <= s.len(),
        to - from == dec_chars(n).len(),
        s.subrange(from, to) == dec_chars(n),
    ensures
        char_dec_num(s, from, to) == n,
    decreases n,
{
    lemma_dec_chars_digits(n);
    lemma_print_at(s, from, dec_chars(n));
    if n < 10 {
        assert(to == from + 1);
        assert(s[from] == dec_chars(n)[0]);
        assert(char_dec_num(s, from, to) == char_dec_num(s, from, from) * 10 + (s[from] as u32
            - 48));
    } else {
        let t = dec_chars(n / 10);
        assert(dec_chars(n) == t.push(((48 + n % 10) as u8) as char));
        assert(s.subrange(from, to - 1) =~= t);
        lemma_char_dec_of_chars(n / 10, s, from, to - 1);
        assert(s[to - 1] == dec_chars(n)[to - 1 - from]);
        assert((n / 10) * 10 + n % 10 == n);
    }
}

/// `digits_end` is pinned by a witness for the run's end.
proof fn lemma_digits_end_at(s: Seq<char>, pos: int, k: int)
    requires
        0 <= pos <= k <= s.len(),
        forall|j: int| pos <= j < k ==> is_digit_char(#[trigger] s[j]),
        k == s.len() || !is_digit_char(s[k]),
    ensures
        digits_end(s, pos) == k,
    decreases k - pos,
{
    if pos < k {
        lemma_digits_end_at(s, pos + 1, k);
    }
}

/// A hexadecimal digit character denotes the value it prints.
proof fn lemma_hex_char_val(k: int)
    requires
        0 <= k < 16,
    ensures
        spec_hex_val(hex_char(k)) == Some(k as u32),
{
}

/// A printed string body standing at `i` and closed by a quote parses back
/// to exactly the remaining characters.
#[verifier::rlimit(100)]
#[verifier::spinoff_prover]
proof fn lemma_str_body_print(cs: Seq<char>, k: int, s: Seq<char>, i: int)
    requires
        0 <= k <= cs.len(),
        0 <= i,
        i + print_str(cs, k).len() + 1 <= s.len(),
        s.subrange(i, i + print_str(cs, k).len() as int) == print_str(cs, k),
        s[i + print_str(cs, k).len()] == '"',
    ensures
        spec_str_body(s, i) == Some((cs.skip(k), i + print_str(cs, k).len() + 1)),
    decreases cs.len() - k,
{
    if k == cs.len() {
        assert(print_str(cs, k) =~= Seq::<char>::empty());
        assert(cs.skip(k) =~= Seq::<char>::empty());
    } else {
        let c = cs[k];
        let e = esc_char(c);
        let rest = print_str(cs, k + 1);
        assert(print_str(cs, k) == e + rest);
        lemma_subrange_split(s, i, e, rest);
        assert(s.subrange(i + e.len() as int, i + e.len() + rest.len()) == rest);
        lemma_str_body_print(cs, k + 1, s, i + e.len());
        assert(seq![c] + cs.skip(k + 1) =~= cs.skip(k));
        if c == '"' {
            assert(s[i + 0] == e[0] && s[i + 1] == e[1]);
            assert(spec_str_body(s, i) == str_cons(c, spec_str_body(s, i + 2)));
        } else if c == '\\' {
            assert(s[i + 0] == e[0] && s[i + 1] == e[1]);
            assert(spec_str_body(s, i) == str_cons(c, spec_str_body(s, i + 2)));
        } else if c == '\n' {
            assert(s[i + 0] == e[0] && s[i + 1] == e[1]);
            assert(spec_str_body(s, i) == str_cons(c, spec_str_body(s, i + 2)));
        } else if c == '\r' {
            assert(s[i + 0] == e[0] && s[i + 1] == e[1]);
            assert(spec_str_body(s, i) == str_cons(c, spec_str_body(s, i + 2)));
        } else if c == '\t' {
            assert(s[i + 0] == e[0] && s[i + 1] == e[1]);
            assert(spec_str_body(s, i) == str_cons(c, spec_str_body(s, i + 2)));
        } else if (c as u32) < 32 {
            lemma_esc_control_step(c, s, i);
        } else {
            assert(s[i + 0] == e[0]);
            assert(e[0] == c);
            assert(spec_str_body(s, i) == str_cons(c, spec_str_body(s, i + 1)));
        }
    }
}

/// One `\u00XX` escape standing at `i` is read back as its character: the
/// step of the string-body parse over a printed control character.
#[verifier::spinoff_prover]
proof fn lemma_esc_control_step(c: char, s: Seq<char>, i: int)
    requires
        (c as u32) < 32,
        c != '\n' && c != '\r' && c != '\t',
        0 <= i,
        i + 6 < s.len(),
        forall|j: int| 0 <= j < 6 ==> s[i + j] == #[trigger] esc_char(c)[j],
    ensures
        spec_str_body(s, i) == str_cons(c, spec_str_body(s, i + 6)),
{
    let e = esc_char(c);
    let hi = ((c as u32) as int) / 16;
    let lo = ((c as u32) as int) % 16;
    assert(s[i + 0] == e[0] && s[i + 1] == e[1] && s[i + 2] == e[2] && s[i + 3] == e[3] && s[i
        + 4] == e[4] && s[i + 5] == e[5]);
    assert(e[0] == '\\' && e[1] == 'u' && e[2] == '0' && e[3] == '0' && e[4] == hex_char(hi)
        && e[5] == hex_char(lo));
    lemma_hex_char_val(hi);
    lemma_hex_char_val(lo);
    assert(spec_hex_val('0') == Some(0u32));
    assert(spec_hex4(s, i + 2) == Some((((0 * 16 + 0) * 16 + (hi as u32)) * 16 + (lo
        as u32)) as u32,
    ));
    assert(16 * hi + lo == c as u32);
    assert(spec_hex4(s, i + 2) == Some(c as u32));
    vstd::utf8::char_is_scalar(c);
    vstd::utf8::char_u32_cast(c, c as u32);
    assert(spec_str_body(s, i) == str_cons(c, spec_str_body(s, i + 6)));
}

/// A printed string literal, quotes included, parses back to exactly its
/// characters.
proof fn lemma_string_print(cs: Seq<char>, s: Seq<char>, pos: int)
    requires
        0 <= pos,
        pos + print_str(cs, 0).len() + 2 <= s.len(),
        s.subrange(pos, pos + print_str(cs, 0).len() + 2) == seq!['"'] + print_str(cs, 0)
            + seq!['"'],
    ensures
        spec_parse_string(s, pos) == Some((cs, pos + print_str(cs, 0).len() + 2)),
{
    let plen = print_str(cs, 0).len() as int;
    assert((seq!['"'] + print_str(cs, 0)) + seq!['"'] =~= seq!['"'] + (print_str(cs, 0)
        + seq!['"']));
    lemma_subrange_split(s, pos, seq!['"'], print_str(cs, 0) + seq!['"']);
    lemma_subrange_split(s, pos + 1, print_str(cs, 0), seq!['"']);
    assert((seq!['"'])[0] == '"');
    assert(s[pos + 0] == (seq!['"'])[0]);
    assert(s[pos + 1 + plen] == (seq!['"'])[0]);
    lemma_str_body_print(cs, 0, s, pos + 1);
    assert(cs.skip(0) =~= cs);
}

/// A printed integer standing at `pos`, followed by a number boundary,
/// parses back to exactly that integer.
proof fn lemma_number_print(n: int, s: Seq<char>, pos: int)
    requires
        i64::MIN <= n <= i64::MAX,
        0 <= pos,
        pos + print_int(n).len() <= s.len(),
        s.subrange(pos, pos + print_int(n).len() as int) == print_int(n),
        num_boundary(s, pos + print_int(n).len()),
    ensures
        spec_parse_number(s, pos) == Some((n, pos + print_int(n).len())),
{
    lemma_print_at(s, pos, print_int(n));
    if n < 0 {
        let mag = (-n) as nat;
        lemma_dec_chars_digits(mag);
        lemma_subrange_split(s, pos, seq!['-'], dec_chars(mag));
        let start = pos + 1;
        let end = start + dec_chars(mag).len();
        assert(print_int(n)[0] == '-');
        assert(s[pos + 0] == print_int(n)[0]);
        assert(s[pos] == '-');
        assert forall|j: int| start <= j < end implies is_digit_char(#[trigger] s[j]) by {
            assert(s[j] == dec_chars(mag)[j - start]);
        }
        lemma_digits_end_at(s, start, end);
        assert(s.subrange(start, end) =~= dec_chars(mag));
        lemma_char_dec_of_chars(mag, s, start, end);
        assert(s[start] == dec_chars(mag)[0]);
        assert(!is_digit_char('-'));
        assert(s[pos] != '0');
    } else {
        let mag = n as nat;
        lemma_dec_chars_digits(mag);
        let start = pos;
        let end = start + dec_chars(mag).len();
        assert forall|j: int| start <= j < end implies is_digit_char(#[trigger] s[j]) by {
            assert(s[j] == dec_chars(mag)[j - start]);
        }
        lemma_digits_end_at(s, start, end);
        lemma_char_dec_of_chars(mag, s, start, end);
        assert(s[start] == dec_chars(mag)[0]);
        if mag == 0 {
            assert(s[start] == '0');
            assert(end == start + 1);
        }
    }
}

} // verus!
