//! Unquoting of PromQL string literals, following Go's `strconv.Unquote`.
use vstd::prelude::*;

use crate::util::text::{chars_to_string, push_char, str_to_chars, str_to_string};

verus! {

/// The value of a hexadecimal digit, if `c` is one.
pub open spec fn spec_unhex(c: char) -> Option<u32> {
    if '0' <= c && c <= '9' {
        Some((c as u32 - '0' as u32) as u32)
    } else if 'a' <= c && c <= 'f' {
        Some((c as u32 - 'a' as u32 + 10) as u32)
    } else if 'A' <= c && c <= 'F' {
        Some((c as u32 - 'A' as u32 + 10) as u32)
    } else {
        None
    }
}

/// The value of the `n` hexadecimal digits `s[0..n]`, if all of them are digits.
pub open spec fn spec_hex_value(s: Seq<char>, n: nat) -> Option<int>
    decreases n,
{
    if n == 0 {
        Some(0)
    } else {
        match spec_hex_value(s, (n - 1) as nat) {
            Some(v) => match spec_unhex(s[n - 1]) {
                Some(x) => Some(v * 16 + x),
                None => None,
            },
            None => None,
        }
    }
}

/// Whether `c` is an octal digit.
pub open spec fn is_octal_digit(c: char) -> bool {
    '0' <= c && c <= '7'
}

/// Whether the code point `v` is a Unicode scalar value (what `char::from_u32` accepts).
pub open spec fn is_scalar_value(v: int) -> bool {
    (0 <= v && v <= 0xD7FF) || (0xE000 <= v && v <= 0x10FFFF)
}

/// The char decoded from the escape sequence that starts at `s[0] == '\\'`,
/// and how many chars the sequence spans; `None` if it is malformed.
pub open spec fn spec_unquote_escape(s: Seq<char>, quote: char) -> Option<(char, nat)> {
    if s.len() <= 1 {
        None
    } else {
        let c = s[1];
        if c == 'a' {
            Some(('\x07', 2))
        } else if c == 'b' {
            Some(('\x08', 2))
        } else if c == 'f' {
            Some(('\x0c', 2))
        } else if c == 'n' {
            Some(('\n', 2))
        } else if c == 'r' {
            Some(('\r', 2))
        } else if c == 't' {
            Some(('\t', 2))
        } else if c == 'v' {
            Some(('\x0b', 2))
        } else if c == 'x' || c == 'u' || c == 'U' {
            let n: nat = if c == 'x' {
                2
            } else if c == 'u' {
                4
            } else {
                8
            };
            if s.len() - 2 < n {
                None
            } else {
                match spec_hex_value(s.subrange(2, s.len() as int), n) {
                    Some(v) => if is_scalar_value(v) {
                        Some((v as char, n + 2))
                    } else {
                        None
                    },
                    None => None,
                }
            }
        } else if is_octal_digit(c) {
            if s.len() - 2 < 2 || !is_octal_digit(s[2]) || !is_octal_digit(s[3]) {
                None
            } else {
                let v = (c as u32 - '0' as u32) * 64 + (s[2] as u32 - '0' as u32) * 8 + (
                s[3] as u32 - '0' as u32);
                if v > 255 {
                    None
                } else {
                    Some((v as char, 4))
                }
            }
        } else if c == '\\' {
            Some(('\\', 2))
        } else if c == '\'' || c == '"' {
            if c != quote {
                None
            } else {
                Some((c, 2))
            }
        } else {
            None
        }
    }
}

/// The first char that the non-empty quoted text `s` stands for, and how many chars of `s`
/// it spans; `None` where the text is malformed.
pub open spec fn spec_unquote_char(s: Seq<char>, quote: char) -> Option<(char, nat)> {
    let c = s[0];
    if c == quote && (quote == '\'' || quote == '"') {
        None
    } else if c != '\\' {
        Some((c, 1))
    } else {
        spec_unquote_escape(s, quote)
    }
}

/// The text that the quoted text `s` (without its surrounding quotes) stands for.
pub open spec fn spec_unquote_inner(s: Seq<char>, quote: char) -> Option<Seq<char>>
    decreases s.len(),
{
    if s.len() == 0 {
        Some(Seq::empty())
    } else {
        match spec_unquote_char(s, quote) {
            Some((c, k)) => if 1 <= k <= s.len() {
                match spec_unquote_inner(s.subrange(k as int, s.len() as int), quote) {
                    Some(rest) => Some(seq![c] + rest),
                    None => None,
                }
            } else {
                None
            },
            None => None,
        }
    }
}

/// The value of the quoted string literal `s`: `Some` exactly when `s` is a well-formed
/// literal in single quotes, double quotes or backticks.
pub open spec fn spec_unquote_string(s: Seq<char>) -> Option<Seq<char>> {
    let n = s.len();
    if n < 2 {
        None
    } else if s[0] != s[n - 1] {
        None
    } else {
        let quote = s[0];
        let inner = s.subrange(1, n - 1);
        if quote == '`' {
            if inner.contains('`') {
                None
            } else {
                Some(inner)
            }
        } else if quote != '"' && quote != '\'' {
            None
        } else if inner.contains('\n') {
            None
        } else {
            spec_unquote_inner(inner, quote)
        }
    }
}

/// The error message of every malformed literal.
pub open spec fn invalid_syntax_msg() -> Seq<char> {
    "invalid syntax"@
}

fn invalid_syntax() -> (e: String)
    ensures
        e@ == invalid_syntax_msg(),
{
    str_to_string("invalid syntax")
}

/// Text without escapes or quotes stands for itself.
proof fn lemma_unquote_plain(s: Seq<char>, quote: char)
    requires
        !s.contains('\\'),
        !s.contains(quote),
    ensures
        spec_unquote_inner(s, quote) == Some(s),
    decreases s.len(),
{
    if s.len() > 0 {
        let rest = s.subrange(1, s.len() as int);
        assert(s[0] != quote && s[0] != '\\') by {
            assert(s.contains(s[0]));
        }
        assert forall|c: char| rest.contains(c) implies s.contains(c) by {
            let i = choose|i: int| 0 <= i < rest.len() && rest[i] == c;
            assert(s[i + 1] == c);
        }
        lemma_unquote_plain(rest, quote);
        assert(seq![s[0]] + rest =~= s);
    }
}

fn contains_char(v: &Vec<char>, from: usize, to: usize, c: char) -> (b: bool)
    requires
        from <= to <= v.len(),
    ensures
        b == v@.subrange(from as int, to as int).contains(c),
{
    let mut i = from;
    while i < to
        invariant
            from <= i <= to <= v.len(),
            forall|j: int| from <= j < i ==> v@[j] != c,
        decreases to - i,
    {
        if v[i] == c {
            assert(v@.subrange(from as int, to as int)[i - from] == c);
            return true;
        }
        i = i + 1;
    }
    assert forall|k: int| 0 <= k < to - from implies v@.subrange(from as int, to as int)[k] != c by {
        assert(v@.subrange(from as int, to as int)[k] == v@[from + k]);
    }
    false
}

fn unhex(c: char) -> (r: Result<u32, String>)
    ensures
        match r {
            Ok(x) => spec_unhex(c) == Some(x),
            Err(e) => spec_unhex(c).is_none() && e@ == invalid_syntax_msg(),
        },
{
    if '0' <= c && c <= '9' {
        Ok(c as u32 - '0' as u32)
    } else if 'a' <= c && c <= 'f' {
        Ok(c as u32 - 'a' as u32 + 10)
    } else if 'A' <= c && c <= 'F' {
        Ok(c as u32 - 'A' as u32 + 10)
    } else {
        Err(invalid_syntax())
    }
}

proof fn lemma_hex_value_bound(s: Seq<char>, n: nat)
    ensures
        spec_hex_value(s, n) matches Some(v) ==> 0 <= v < vstd::arithmetic::power::pow(16, n),
    decreases n,
{
    reveal(vstd::arithmetic::power::pow);
    if n > 0 {
        lemma_hex_value_bound(s, (n - 1) as nat);
    }
}

proof fn lemma_hex_value_prefix(s: Seq<char>, t: Seq<char>, n: nat)
    requires
        n <= s.len(),
        n <= t.len(),
        forall|i: int| 0 <= i < n ==> s[i] == t[i],
    ensures
        spec_hex_value(s, n) == spec_hex_value(t, n),
    decreases n,
{
    if n > 0 {
        lemma_hex_value_prefix(s, t, (n - 1) as nat);
    }
}

/// Wraps `char::from_u32`.
///
/// Trusted: std documents that `char::from_u32` returns `Some` exactly for the Unicode
/// scalar values, and then the char whose code is `v`.
#[verifier::external_body]
fn char_from_u32(v: u32) -> (r: Option<char>)
    ensures
        r is Some <==> is_scalar_value(v as int),
        r matches Some(c) ==> c == v as char,
{
    std::char::from_u32(v)
}

/// Decodes the escape sequence at `s[pos] == '\\'`; returns the char and the position after it.
fn unquote_escape(s: &Vec<char>, pos: usize, end: usize, quote: char) -> (r: Result<(char, usize), String>)
    requires
        pos < end <= s.len(),
        s@[pos as int] == '\\',
    ensures
        match r {
            Ok((c, next)) => spec_unquote_escape(s@.subrange(pos as int, end as int), quote)
                == Some((c, (next - pos) as nat)) && pos < next <= end,
            Err(e) => spec_unquote_escape(s@.subrange(pos as int, end as int), quote).is_none()
                && e@ == invalid_syntax_msg(),
        },
{
    let ghost t = s@.subrange(pos as int, end as int);
    if end - pos <= 1 {
        return Err(invalid_syntax());
    }
    let c = s[pos + 1];
    assert(t[1] == c);
    let value = if c == 'a' {
        '\x07'
    } else if c == 'b' {
        '\x08'
    } else if c == 'f' {
        '\x0c'
    } else if c == 'n' {
        '\n'
    } else if c == 'r' {
        '\r'
    } else if c == 't' {
        '\t'
    } else if c == 'v' {
        '\x0b'
    } else if c == 'x' || c == 'u' || c == 'U' {
        let n: usize = if c == 'x' {
            2
        } else if c == 'u' {
            4
        } else {
            8
        };
        if end - pos - 2 < n {
            return Err(invalid_syntax());
        }
        let ghost digits = t.subrange(2, t.len() as int);
        let mut v: u32 = 0;
        let mut i: usize = 0;
        while i < n
            invariant
                i <= n <= 8,
                pos + 2 + n <= end <= s.len(),
                t == s@.subrange(pos as int, end as int),
                digits == t.subrange(2, t.len() as int),
                t.len() == end - pos,
                t[1] == c,
                c == 'x' || c == 'u' || c == 'U',
                n == (if c == 'x' {
                    2usize
                } else if c == 'u' {
                    4usize
                } else {
                    8usize
                }),
                spec_hex_value(digits, i as nat) == Some(v as int),
            decreases n - i,
        {
            let d = s[pos + 2 + i];
            assert(digits[i as int] == d);
            let x = match unhex(d) {
                Ok(x) => x,
                Err(e) => {
                    proof {
                        assert(spec_hex_value(digits, (i + 1) as nat) is None);
                        lemma_hex_none_propagates(digits, (i + 1) as nat, n as nat);
                    }
                    return Err(e);
                },
            };
            proof {
                lemma_hex_value_bound(digits, i as nat);
                vstd::arithmetic::power::lemma_pow_strictly_increases(16, i as nat, 8);
                vstd::arithmetic::power::lemma_pow_positive(16, 7);
                assert(vstd::arithmetic::power::pow(16, 7) == 0x10000000) by {
                    vstd::arithmetic::power::lemma_pow_adds(16, 4, 3);
                    reveal_with_fuel(vstd::arithmetic::power::pow, 5);
                }
                if i < 7 {
                    vstd::arithmetic::power::lemma_pow_increases(16, i as nat, 7);
                }
                assert(v < 0x10000000);
                assert((v << 4) | x == v * 16 + x) by (bit_vector)
                    requires
                        v < 0x10000000,
                        x < 16,
                ;
            }
            v = (v << 4) | x;
            i = i + 1;
        }
        if c == 'u' || c == 'U' {
            if v > 0x10FFFF {
                return Err(invalid_syntax());
            }
        }
        proof {
            if c == 'x' {
                lemma_hex_value_bound(digits, 2);
                assert(vstd::arithmetic::power::pow(16, 2) == 256) by {
                    reveal_with_fuel(vstd::arithmetic::power::pow, 3);
                }
            }
        }
        match char_from_u32(v) {
            Some(ch) => {
                assert(t.len() - 2 >= n);
                return Ok((ch, pos + 2 + n));
            },
            None => {
                return Err(invalid_syntax());
            },
        }
    } else if '0' <= c && c <= '7' {
        if end - pos - 2 < 2 {
            return Err(invalid_syntax());
        }
        let d1 = s[pos + 2];
        let d2 = s[pos + 3];
        assert(t[2] == d1 && t[3] == d2);
        if !('0' <= d1 && d1 <= '7') || !('0' <= d2 && d2 <= '7') {
            return Err(invalid_syntax());
        }
        let v: u32 = (c as u32 - '0' as u32) * 64 + (d1 as u32 - '0' as u32) * 8 + (d2 as u32
            - '0' as u32);
        if v > 255 {
            return Err(invalid_syntax());
        }
        let ch = (v as u8) as char;
        return Ok((ch, pos + 4));
    } else if c == '\\' {
        '\\'
    } else if c == '\'' || c == '"' {
        if c != quote {
            return Err(invalid_syntax());
        }
        c
    } else {
        return Err(invalid_syntax());
    };
    Ok((value, pos + 2))
}

proof fn lemma_hex_none_propagates(s: Seq<char>, k: nat, m: nat)
    requires
        spec_hex_value(s, k) is None,
        k <= m,
    ensures
        spec_hex_value(s, m) is None,
    decreases m - k,
{
    if k < m {
        lemma_hex_none_propagates(s, k, (m - 1) as nat);
    }
}

/// Decodes the first char of the quoted text `s[pos..end]`; returns it and the position
/// after it.
fn unquote_char(s: &Vec<char>, pos: usize, end: usize, quote: char) -> (r: Result<(char, usize), String>)
    requires
        pos < end <= s.len(),
    ensures
        match r {
            Ok((c, next)) => spec_unquote_char(s@.subrange(pos as int, end as int), quote)
                == Some((c, (next - pos) as nat)) && pos < next <= end,
            Err(e) => spec_unquote_char(s@.subrange(pos as int, end as int), quote).is_none()
                && e@ == invalid_syntax_msg(),
        },
{
    let c = s[pos];
    assert(s@.subrange(pos as int, end as int)[0] == c);
    if c == quote && (quote == '\'' || quote == '"') {
        return Err(invalid_syntax());
    }
    if c != '\\' {
        return Ok((c, pos + 1));
    }
    unquote_escape(s, pos, end, quote)
}

/// Unquotes a PromQL string literal: single- or double-quoted with Go escapes, or
/// backtick-quoted and taken literally.
pub fn unquote_string(s: &str) -> (r: Result<String, String>)
    ensures
        match r {
            Ok(v) => spec_unquote_string(s@) == Some(v@),
            Err(e) => spec_unquote_string(s@).is_none() && e@ == invalid_syntax_msg(),
        },
{
    let cs = str_to_chars(s);
    let n = cs.len();
    if n < 2 {
        return Err(invalid_syntax());
    }
    let quote = cs[0];
    if quote != cs[n - 1] {
        return Err(invalid_syntax());
    }
    let ghost inner = s@.subrange(1, n - 1);
    assert(cs@.subrange(1, n - 1) == inner);
    if quote == '`' {
        if contains_char(&cs, 1, n - 1, '`') {
            return Err(invalid_syntax());
        }
        return Ok(chars_to_string(&cs, 1, n - 1));
    }
    if quote != '"' && quote != '\'' {
        return Err(invalid_syntax());
    }
    if contains_char(&cs, 1, n - 1, '\n') {
        return Err(invalid_syntax());
    }
    if !contains_char(&cs, 1, n - 1, '\\') && !contains_char(&cs, 1, n - 1, quote) {
        proof {
            lemma_unquote_plain(inner, quote);
        }
        return Ok(chars_to_string(&cs, 1, n - 1));
    }
    let mut res = String::new();
    let mut pos: usize = 1;
    let end = n - 1;
    while pos < end
        invariant
            1 <= pos <= end,
            end == n - 1,
            n == cs.len(),
            n >= 2,
            cs@ == s@,
            quote == cs@[0],
            quote == cs@[n - 1],
            quote == '"' || quote == '\'',
            !inner.contains('\n'),
            inner == cs@.subrange(1, end as int),
            spec_unquote_inner(inner, quote) == (match spec_unquote_inner(
                cs@.subrange(pos as int, end as int),
                quote,
            ) {
                Some(rest) => Some(res@ + rest),
                None => None,
            }),
        decreases end - pos,
    {
        let ghost rest = cs@.subrange(pos as int, end as int);
        match unquote_char(&cs, pos, end, quote) {
            Ok((c, next)) => {
                assert(cs@.subrange(next as int, end as int) =~= rest.subrange(
                    (next - pos) as int,
                    rest.len() as int,
                ));
                let ghost old_res = res@;
                push_char(&mut res, c);
                proof {
                    match spec_unquote_inner(cs@.subrange(next as int, end as int), quote) {
                        Some(tail) => {
                            assert(old_res + (seq![c] + tail) =~= res@ + tail);
                        },
                        None => {},
                    }
                }
                pos = next;
            },
            Err(e) => {
                assert(rest.len() > 0);
                assert(spec_unquote_inner(rest, quote).is_none());
                return Err(e);
            },
        }
    }
    assert(cs@.subrange(pos as int, end as int) =~= Seq::<char>::empty());
    assert(res@ + Seq::<char>::empty() =~= res@);
    Ok(res)
}

/// The char that the escape `\e` stands for, for the one-letter escapes and the backslash.
pub open spec fn simple_escape_value(e: char) -> char {
    if e == 'a' {
        '\x07'
    } else if e == 'b' {
        '\x08'
    } else if e == 'f' {
        '\x0c'
    } else if e == 'n' {
        '\n'
    } else if e == 'r' {
        '\r'
    } else if e == 't' {
        '\t'
    } else if e == 'v' {
        '\x0b'
    } else {
        '\\'
    }
}

/// Whether `s` holds no backslash, no quote `q` and no line break.
pub open spec fn plain_text(s: Seq<char>, q: char) -> bool {
    !s.contains('\\') && !s.contains(q) && !s.contains('\n')
}

/// Plain text before the rest of a quoted text stands for itself.
proof fn lemma_unquote_inner_plain_prefix(a: Seq<char>, rest: Seq<char>, q: char)
    requires
        !a.contains('\\'),
        !a.contains(q),
    ensures
        spec_unquote_inner(a + rest, q) == match spec_unquote_inner(rest, q) {
            Some(r) => Some(a + r),
            None => None::<Seq<char>>,
        },
    decreases a.len(),
{
    if a.len() == 0 {
        assert(a + rest =~= rest);
        if let Some(r) = spec_unquote_inner(rest, q) {
            assert(a + r =~= r);
        }
    } else {
        let s = a + rest;
        let a1 = a.subrange(1, a.len() as int);
        assert(a.contains(a[0]));
        assert(s[0] == a[0]);
        assert forall|c: char| a1.contains(c) implies a.contains(c) by {
            let i = choose|i: int| 0 <= i < a1.len() && a1[i] == c;
            assert(a[i + 1] == c);
        }
        assert(s.subrange(1, s.len() as int) =~= a1 + rest);
        lemma_unquote_inner_plain_prefix(a1, rest, q);
        if let Some(r) = spec_unquote_inner(rest, q) {
            assert(seq![a[0]] + (a1 + r) =~= a + r);
        }
    }
}

/// A quoted string whose text holds no backslash, no quote and no line break stands for
/// its text.
pub proof fn lemma_unquote_plain_string(q: char, body: Seq<char>)
    requires
        q == '"' || q == '\'' || q == '`',
        plain_text(body, q),
    ensures
        spec_unquote_string(seq![q] + body + seq![q]) == Some(body),
{
    let s = seq![q] + body + seq![q];
    assert(s.subrange(1, s.len() - 1) =~= body);
    if q != '`' {
        lemma_unquote_plain(body, q);
    }
}

/// In single or double quotes, a one-letter escape (`\a`, `\b`, `\f`, `\n`, `\r`, `\t`,
/// `\v`) or an escaped backslash between plain texts stands for its char.
pub proof fn lemma_unquote_simple_escape(q: char, a: Seq<char>, e: char, b: Seq<char>)
    requires
        q == '"' || q == '\'',
        plain_text(a, q),
        plain_text(b, q),
        e == 'a' || e == 'b' || e == 'f' || e == 'n' || e == 'r' || e == 't' || e == 'v' || e
            == '\\',
    ensures
        spec_unquote_string(seq![q] + a + seq!['\\', e] + b + seq![q]) == Some(
            a + seq![simple_escape_value(e)] + b,
        ),
{
    let inner = a + seq!['\\', e] + b;
    let s = seq![q] + inner + seq![q];
    assert(s.subrange(1, s.len() - 1) =~= inner);
    assert(seq![q] + a + seq!['\\', e] + b + seq![q] =~= s);
    assert(!inner.contains('\n')) by {
        if inner.contains('\n') {
            let i = choose|i: int| 0 <= i < inner.len() && inner[i] == '\n';
            if i < a.len() {
                assert(a[i] == '\n');
            } else if i >= a.len() + 2 {
                assert(b[i - a.len() - 2] == '\n');
            }
        }
    }
    let rest = seq!['\\', e] + b;
    assert(inner =~= a + rest);
    lemma_unquote_inner_plain_prefix(a, rest, q);
    assert(rest.subrange(2, rest.len() as int) =~= b);
    lemma_unquote_plain(b, q);
    assert(spec_unquote_char(rest, q) == Some((simple_escape_value(e), 2nat)));
    assert(seq![simple_escape_value(e)] + b =~= seq![simple_escape_value(e)] + b);
    assert(a + (seq![simple_escape_value(e)] + b) =~= a + seq![simple_escape_value(e)] + b);
}

} // verus!
