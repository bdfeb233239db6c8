//! Rendering a JSON value as text: the exact character sequence is pinned
//! down by spec functions, and the executable renderer produces it.

use vstd::prelude::*;

use crate::json::{lemma_jv_list, lemma_jv_members, JsonMember, JsonValue, Jv};

verus! {

broadcast use vstd::std_specs::vec::axiom_vec_index_decreases;

/// The lower-case hexadecimal digit for `n`.
pub open spec fn hex_char(n: int) -> char {
    if n < 10 {
        ((48 + n) as u8) as char
    } else {
        ((87 + n) as u8) as char
    }
}

/// How one character is written inside a JSON string: quotes and
/// backslashes are escaped, control characters are written as `\u00XX`
/// (with `\n`, `\r` and `\t` in their short forms), everything else stands
/// for itself.
pub open spec fn esc_char(c: char) -> Seq<char> {
    if c == '"' {
        seq!['\\', '"']
    } else if c == '\\' {
        seq!['\\', '\\']
    } else if c == '\n' {
        seq!['\\', 'n']
    } else if c == '\r' {
        seq!['\\', 'r']
    } else if c == '\t' {
        seq!['\\', 't']
    } else if (c as u32) < 32 {
        seq!['\\', 'u', '0', '0', hex_char(((c as u32) as int) / 16), hex_char(((c as u32) as int) % 16)]
    } else {
        seq![c]
    }
}

/// The escaped body of a JSON string, from position `i` on.
pub open spec fn print_str(s: Seq<char>, i: int) -> Seq<char>
    decreases s.len() - i,
{
    if i < 0 || i >= s.len() {
        Seq::empty()
    } else {
        esc_char(s[i]) + print_str(s, i + 1)
    }
}

/// The decimal digits of `n`, as characters.
pub open spec fn dec_chars(n: nat) -> Seq<char>
    decreases n,
{
    if n < 10 {
        seq![((48 + n) as u8) as char]
    } else {
        dec_chars(n / 10).push(((48 + n % 10) as u8) as char)
    }
}

/// The text of an integer: a minus sign when negative, then its digits.
pub open spec fn print_int(n: int) -> Seq<char> {
    if n < 0 {
        seq!['-'] + dec_chars((-n) as nat)
    } else {
        dec_chars(n as nat)
    }
}

/// The text of a JSON value.
pub open spec fn print_jv(j: Jv) -> Seq<char>
    decreases j, 0int,
{
    match j {
        Jv::Null => seq!['n', 'u', 'l', 'l'],
        Jv::Bool(b) => if b {
            seq!['t', 'r', 'u', 'e']
        } else {
            seq!['f', 'a', 'l', 's', 'e']
        },
        Jv::Int(n) => print_int(n),
        Jv::Str(s) => seq!['"'] + print_str(s, 0) + seq!['"'],
        Jv::Arr(items) => seq!['['] + print_arr(items, 0) + seq![']'],
        Jv::Obj(ms) => seq!['{'] + print_obj(ms, 0) + seq!['}'],
    }
}

/// The comma-separated texts of the elements of `items` from `i` on.
pub open spec fn print_arr(items: Seq<Jv>, i: int) -> Seq<char>
    decreases items, items.len() - i, 1int,
{
    if i < 0 || i >= items.len() {
        Seq::empty()
    } else {
        print_jv(items[i]) + (if i + 1 < items.len() {
            seq![','] + print_arr(items, i + 1)
        } else {
            Seq::empty()
        })
    }
}

/// The comma-separated `"key":value` texts of the members of `ms` from `i`
/// on.
pub open spec fn print_obj(ms: Seq<(Seq<char>, Jv)>, i: int) -> Seq<char>
    decreases ms, ms.len() - i, 1int,
{
    if i < 0 || i >= ms.len() {
        Seq::empty()
    } else {
        seq!['"'] + print_str(ms[i].0, 0) + seq!['"', ':'] + print_jv(ms[i].1) + (if i + 1
            < ms.len() {
            seq![','] + print_obj(ms, i + 1)
        } else {
            Seq::empty()
        })
    }
}

/// The escaped body of a string, appended.
fn write_escaped(chars: &Vec<char>, i: usize, out: &mut Vec<char>)
    requires
        i <= chars@.len(),
    ensures
        final(out)@ == old(out)@ + print_str(chars@, i as int),
    decreases chars@.len() - i,
{
    if i == chars.len() {
        proof {
            assert(out@ =~= out@ + print_str(chars@, i as int));
        }
        return ;
    }
    let c = chars[i];
    if c == '"' {
        out.push('\\');
        out.push('"');
    } else if c == '\\' {
        out.push('\\');
        out.push('\\');
    } else if c == '\n' {
        out.push('\\');
        out.push('n');
    } else if c == '\r' {
        out.push('\\');
        out.push('r');
    } else if c == '\t' {
        out.push('\\');
        out.push('t');
    } else if (c as u32) < 32 {
        out.push('\\');
        out.push('u');
        out.push('0');
        out.push('0');
        let code = c as u32;
        let hi: u8 = (code / 16) as u8;
        let lo: u8 = (code % 16) as u8;
        proof {
            assert(hi as int == ((c as u32) as int) / 16);
            assert(lo as int == ((c as u32) as int) % 16);
        }
        out.push(if hi < 10 {
            (48 + hi) as char
        } else {
            (87 + hi) as char
        });
        out.push(if lo < 10 {
            (48 + lo) as char
        } else {
            (87 + lo) as char
        });
    } else {
        out.push(c);
    }
    let ghost mid = out@;
    proof {
        assert(mid =~= old(out)@ + esc_char(chars@[i as int]));
    }
    write_escaped(chars, i + 1, out);
    proof {
        assert(old(out)@ + esc_char(chars@[i as int]) + print_str(chars@, i + 1) =~= old(out)@
            + print_str(chars@, i as int));
    }
}

/// The decimal digits of `n`, appended as characters.
fn push_dec_chars(out: &mut Vec<char>, n: u64)
    ensures
        final(out)@ == old(out)@ + dec_chars(n as nat),
    decreases n,
{
    if n >= 10 {
        push_dec_chars(out, n / 10);
    }
    out.push((48 + (n % 10) as u8) as char);
    proof {
        assert(out@ =~= old(out)@ + dec_chars(n as nat));
    }
}

/// A whole string literal, quotes and escapes included, appended.
fn write_string(s: &str, out: &mut Vec<char>)
    ensures
        final(out)@ == old(out)@ + seq!['"'] + print_str(s@, 0) + seq!['"'],
{
    let chars = crate::text::str_to_chars(s);
    out.push('"');
    write_escaped(&chars, 0, out);
    out.push('"');
    proof {
        assert(out@ =~= old(out)@ + seq!['"'] + print_str(s@, 0) + seq!['"']);
    }
}

/// The text of a value, appended.
pub fn write_value(v: &JsonValue, out: &mut Vec<char>)
    ensures
        final(out)@ == old(out)@ + print_jv(v.jv()),
    decreases v, 0int,
{
    match v {
        JsonValue::Null => {
            out.push('n');
            out.push('u');
            out.push('l');
            out.push('l');
            proof {
                assert(out@ =~= old(out)@ + print_jv(v.jv()));
            }
        },
        JsonValue::Bool(b) => {
            if *b {
                out.push('t');
                out.push('r');
                out.push('u');
                out.push('e');
            } else {
                out.push('f');
                out.push('a');
                out.push('l');
                out.push('s');
                out.push('e');
            }
            proof {
                assert(out@ =~= old(out)@ + print_jv(v.jv()));
            }
        },
        JsonValue::Int(n) => {
            let m = *n;
            if m < 0 {
                out.push('-');
                let mag: u64 = if m == i64::MIN {
                    9223372036854775808u64
                } else {
                    (-m) as u64
                };
                push_dec_chars(out, mag);
            } else {
                push_dec_chars(out, m as u64);
            }
            proof {
                assert(out@ =~= old(out)@ + print_jv(v.jv()));
            }
        },
        JsonValue::Str(s) => {
            write_string(s.as_str(), out);
            proof {
                assert(out@ =~= old(out)@ + print_jv(v.jv()));
            }
        },
        JsonValue::Array(items) => {
            out.push('[');
            if items.len() > 0 {
                write_arr(items, 0, out);
            }
            out.push(']');
            proof {
                lemma_jv_list(*items, 0);
                if items@.len() == 0 {
                    assert(print_arr(JsonValue::jv_list(*items, 0), 0) =~= Seq::<char>::empty());
                }
                assert(out@ =~= old(out)@ + print_jv(v.jv()));
            }
        },
        JsonValue::Object(fields) => {
            out.push('{');
            if fields.len() > 0 {
                write_obj(fields, 0, out);
            }
            out.push('}');
            proof {
                lemma_jv_members(*fields, 0);
                if fields@.len() == 0 {
                    assert(print_obj(JsonValue::jv_members(*fields, 0), 0)
                        =~= Seq::<char>::empty());
                }
                assert(out@ =~= old(out)@ + print_jv(v.jv()));
            }
        },
    }
}

/// The texts of the elements from `i` on, comma-separated, appended.
fn write_arr(items: &Vec<JsonValue>, i: usize, out: &mut Vec<char>)
    requires
        i < items@.len(),
    ensures
        final(out)@ == old(out)@ + print_arr(JsonValue::jv_list(*items, 0), i as int),
    decreases items, items@.len() - i, 2int,
{
    proof {
        lemma_jv_list(*items, 0);
        assert(decreases_to!(*items => items@[i as int]));
    }
    write_value(&items[i], out);
    if i < items.len() - 1 {
        out.push(',');
        write_arr(items, i + 1, out);
    }
    proof {
        lemma_jv_list(*items, 0);
        assert(out@ =~= old(out)@ + print_arr(JsonValue::jv_list(*items, 0), i as int));
    }
}

/// The `"key":value` texts of the members from `i` on, comma-separated,
/// appended.
fn write_obj(fields: &Vec<JsonMember>, i: usize, out: &mut Vec<char>)
    requires
        i < fields@.len(),
    ensures
        final(out)@ == old(out)@ + print_obj(JsonValue::jv_members(*fields, 0), i as int),
    decreases fields, fields@.len() - i, 2int,
{
    proof {
        lemma_jv_members(*fields, 0);
        assert(decreases_to!(*fields => fields@[i as int]));
    }
    write_string(fields[i].key.as_str(), out);
    out.push(':');
    write_value(&fields[i].value, out);
    if i < fields.len() - 1 {
        out.push(',');
        write_obj(fields, i + 1, out);
    }
    proof {
        lemma_jv_members(*fields, 0);
        assert(out@ =~= old(out)@ + print_obj(JsonValue::jv_members(*fields, 0), i as int));
    }
}

/// The text of a value, as a string.
pub fn to_text(v: &JsonValue) -> (r: String)
    ensures
        r@ == print_jv(v.jv()),
{
    let mut out: Vec<char> = Vec::new();
    write_value(v, &mut out);
    crate::text::chars_into_string(&out)
}

} // verus!
