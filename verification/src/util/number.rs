//! The form of a number literal: an integer in hex or octal notation, or a decimal with
//! an optional unit suffix (`k`, `ki`, `m`, `mi`, `g`, `gi`, `t`, `ti`).
use vstd::prelude::*;

use crate::util::text::{
    append_str, ascii_lower, is_whitespace, push_char, spec_is_whitespace, str_to_chars,
    str_to_string, to_ascii_lower,
};

verus! {

/// `s` in ASCII lower case, without whitespace and `_`.
pub open spec fn spec_normalize(s: Seq<char>) -> Seq<char>
    decreases s.len(),
{
    if s.len() == 0 {
        Seq::empty()
    } else {
        let r = spec_normalize(s.drop_last());
        let c = ascii_lower(s.last());
        if spec_is_whitespace(c) || c == '_' {
            r
        } else {
            r.push(c)
        }
    }
}

/// The value of the digit `c` in base 36 (`0`-`9`, `a`-`z`), if it is one.
pub open spec fn spec_digit_value(c: char) -> Option<int> {
    if '0' <= c && c <= '9' {
        Some(c as int - '0' as int)
    } else if 'a' <= c && c <= 'z' {
        Some(c as int - 'a' as int + 10)
    } else if 'A' <= c && c <= 'Z' {
        Some(c as int - 'A' as int + 10)
    } else {
        None
    }
}

/// Whether every char of `s` is a digit of `radix`.
pub open spec fn spec_all_digits(s: Seq<char>, radix: int) -> bool {
    forall|i: int|
        0 <= i < s.len() ==> (#[trigger] spec_digit_value(s[i])) is Some && spec_digit_value(
            s[i],
        )->0 < radix
}

/// The value of the digits `s` in base `radix`.
pub open spec fn spec_digits_value(s: Seq<char>, radix: int) -> int
    decreases s.len(),
{
    if s.len() == 0 {
        0
    } else {
        spec_digits_value(s.drop_last(), radix) * radix + spec_digit_value(s.last())->0
    }
}

/// What `i64::from_str_radix` reads from `s`: an optional sign and at least one digit of
/// `radix`, whose value fits in an `i64`.
pub open spec fn spec_from_str_radix(s: Seq<char>, radix: int) -> Option<i64> {
    let neg = s.len() > 0 && s[0] == '-';
    let digits = if s.len() > 0 && (s[0] == '-' || s[0] == '+') {
        s.drop_first()
    } else {
        s
    };
    let v = if neg {
        -spec_digits_value(digits, radix)
    } else {
        spec_digits_value(digits, radix)
    };
    if digits.len() == 0 || !spec_all_digits(digits, radix) || v < i64::MIN || v > i64::MAX {
        None
    } else {
        Some(v as i64)
    }
}

/// The form of a number literal.
#[derive(Debug, Clone, PartialEq, Eq)]
pub enum NumberForm {
    /// An integer written in hex (`0x`) or octal (a leading `0`).
    Integer(i64),
    /// A decimal number to be multiplied by `base` to the power `power`.
    Decimal { text: String, base: u32, power: u32 },
}

/// Whether the normalized literal `st` is an integer in hex or octal notation: it holds
/// an `x`, or it starts with `0`, `+0` or `-0` (and is not just that) and has neither a
/// `.` nor an `8` or `9`.
pub open spec fn spec_is_radix_form(st: Seq<char>) -> bool {
    st.contains('x') || ((st.len() >= 1 && st[0] == '0') || (st.len() >= 2 && (st[0] == '-'
        || st[0] == '+') && st[1] == '0')) && !st.contains('.') && !st.contains('8')
        && !st.contains('9') && st != seq!['0'] && st != seq!['+', '0'] && st != seq!['-', '0']
}

/// Whether `t` starts with `p`.
pub open spec fn starts_with(t: Seq<char>, p: Seq<char>) -> bool {
    p.len() <= t.len() && t.subrange(0, p.len() as int) == p
}

/// The digits, radix and sign of a literal in radix form.
pub open spec fn spec_radix_parts(st: Seq<char>) -> (Seq<char>, int, bool) {
    if starts_with(st, seq!['-', '0', 'x']) {
        (st.skip(3), 16, true)
    } else if starts_with(st, seq!['+', '0', 'x']) {
        (st.skip(3), 16, false)
    } else if starts_with(st, seq!['0', 'x']) {
        (st.skip(2), 16, false)
    } else if starts_with(st, seq!['-', '0']) {
        (st.skip(2), 8, true)
    } else if starts_with(st, seq!['+', '0']) {
        (st.skip(2), 8, false)
    } else {
        (st.skip(1), 8, false)
    }
}

/// The unit suffix of a decimal literal: how many chars it spans, its base and power.
pub open spec fn spec_unit_suffix(st: Seq<char>) -> (int, u32, u32) {
    let n = st.len() as int;
    if n >= 1 && st[n - 1] == 'k' {
        (1, 1000, 1)
    } else if n >= 2 && st[n - 2] == 'k' && st[n - 1] == 'i' {
        (2, 1024, 1)
    } else if n >= 1 && st[n - 1] == 'm' {
        (1, 1000, 2)
    } else if n >= 2 && st[n - 2] == 'm' && st[n - 1] == 'i' {
        (2, 1024, 2)
    } else if n >= 1 && st[n - 1] == 'g' {
        (1, 1000, 3)
    } else if n >= 2 && st[n - 2] == 'g' && st[n - 1] == 'i' {
        (2, 1024, 3)
    } else if n >= 1 && st[n - 1] == 't' {
        (1, 1000, 4)
    } else if n >= 2 && st[n - 2] == 't' && st[n - 1] == 'i' {
        (2, 1024, 4)
    } else {
        (0, 1, 0)
    }
}

/// Whether reading `s` cannot go wrong: a literal with an `x` starts with `0`, `+0` or
/// `-0`, and a negated integer is not the negation of `i64::MIN`.
pub open spec fn number_form_defined(s: Seq<char>) -> bool {
    let st = spec_normalize(s);
    let (digits, radix, neg) = spec_radix_parts(st);
    &&& st.contains('x') ==> (starts_with(st, seq!['0']) || starts_with(st, seq!['-', '0'])
        || starts_with(st, seq!['+', '0']))
    &&& spec_is_radix_form(st) && neg ==> spec_from_str_radix(digits, radix) != Some(i64::MIN)
}

/// The form of the literal `s`, after it is put in lower case without whitespace and `_`:
/// an integer in radix form, or a decimal text with its unit; the error where the
/// integer does not parse.
pub open spec fn spec_number_form(s: Seq<char>) -> Result<(Option<i64>, Seq<char>, u32, u32), Seq<char>> {
    let st = spec_normalize(s);
    if spec_is_radix_form(st) {
        let (digits, radix, neg) = spec_radix_parts(st);
        match spec_from_str_radix(digits, radix) {
            Some(v) => Ok((Some((if neg { -v } else { v as int }) as i64), Seq::empty(), 1, 0)),
            None => Err("ParseFloatError. "@ + s + " can't be parsed into i64"@),
        }
    } else {
        let (len, base, power) = spec_unit_suffix(st);
        Ok((None, st.take(st.len() - len), base, power))
    }
}


/// `s` in ASCII lower case, without whitespace and `_`.
fn normalize(s: &str) -> (v: Vec<char>)
    ensures
        v@ == spec_normalize(s@),
{
    let cs = str_to_chars(s);
    let mut v: Vec<char> = Vec::new();
    let mut i: usize = 0;
    while i < cs.len()
        invariant
            i <= cs.len(),
            cs@ == s@,
            v@ == spec_normalize(s@.take(i as int)),
        decreases cs.len() - i,
    {
        let c = to_ascii_lower(cs[i]);
        assert(s@.take(i + 1).drop_last() =~= s@.take(i as int));
        assert(s@.take(i + 1).last() == cs@[i as int]);
        if !(is_whitespace(c) || c == '_') {
            v.push(c);
        }
        i = i + 1;
    }
    assert(s@.take(cs.len() as int) =~= s@);
    v
}

fn contains_char(v: &Vec<char>, c: char) -> (b: bool)
    ensures
        b == v@.contains(c),
{
    let mut i: usize = 0;
    while i < v.len()
        invariant
            i <= v.len(),
            forall|k: int| 0 <= k < i ==> v@[k] != c,
        decreases v.len() - i,
    {
        if v[i] == c {
            assert(v@[i as int] == c);
            return true;
        }
        i = i + 1;
    }
    false
}

/// Whether `v` starts with the chars `p`.
fn has_prefix(v: &Vec<char>, p: &Vec<char>) -> (b: bool)
    ensures
        b == starts_with(v@, p@),
{
    if p.len() > v.len() {
        return false;
    }
    let mut i: usize = 0;
    while i < p.len()
        invariant
            i <= p.len() <= v.len(),
            forall|k: int| 0 <= k < i ==> v@[k] == p@[k],
        decreases p.len() - i,
    {
        if v[i] != p[i] {
            assert(v@.subrange(0, p.len() as int)[i as int] != p@[i as int]);
            return false;
        }
        i = i + 1;
    }
    assert(v@.subrange(0, p.len() as int) =~= p@);
    true
}

fn digit_value(c: char) -> (r: Option<u32>)
    ensures
        match spec_digit_value(c) {
            Some(d) => r matches Some(x) && x == d,
            None => r is None,
        },
{
    if '0' <= c && c <= '9' {
        Some(c as u32 - '0' as u32)
    } else if 'a' <= c && c <= 'z' {
        Some(c as u32 - 'a' as u32 + 10)
    } else if 'A' <= c && c <= 'Z' {
        Some(c as u32 - 'A' as u32 + 10)
    } else {
        None
    }
}

proof fn lemma_digits_value_grows(s: Seq<char>, radix: int, k: int, j: int)
    requires
        2 <= radix,
        0 <= k <= j <= s.len(),
        spec_all_digits(s.take(j), radix),
    ensures
        0 <= spec_digits_value(s.take(k), radix) <= spec_digits_value(s.take(j), radix),
    decreases j,
{
    if j > 0 {
        let t = s.take(j);
        assert(t.drop_last() =~= s.take(j - 1));
        assert forall|i: int| 0 <= i < s.take(j - 1).len() implies (#[trigger] spec_digit_value(
            s.take(j - 1)[i],
        )) is Some && spec_digit_value(s.take(j - 1)[i])->0 < radix by {
            assert(s.take(j - 1)[i] == t[i]);
        }
        assert(spec_digit_value(t[j - 1]) is Some);
        if k < j {
            lemma_digits_value_grows(s, radix, k, j - 1);
            let p = spec_digits_value(s.take(j - 1), radix);
            assert(p * radix >= p) by (nonlinear_arith)
                requires
                    p >= 0,
                    radix >= 2,
            ;
        } else {
            lemma_digits_value_grows(s, radix, j - 1, j - 1);
            let p = spec_digits_value(s.take(j - 1), radix);
            assert(p * radix >= 0) by (nonlinear_arith)
                requires
                    p >= 0,
                    radix >= 2,
            ;
        }
    } else {
        assert(s.take(0) =~= Seq::<char>::empty());
    }
}

/// What `i64::from_str_radix` reads from `v[from..]`.
fn from_str_radix(v: &Vec<char>, from: usize, radix: u32) -> (r: Option<i64>)
    requires
        from <= v.len(),
        2 <= radix <= 36,
    ensures
        r == spec_from_str_radix(v@.skip(from as int), radix as int),
{
    let ghost s = v@.skip(from as int);
    let neg = from < v.len() && v[from] == '-';
    let start = if from < v.len() && (v[from] == '-' || v[from] == '+') {
        from + 1
    } else {
        from
    };
    let ghost digits = v@.skip(start as int);
    assert(digits =~= (if s.len() > 0 && (s[0] == '-' || s[0] == '+') {
        s.drop_first()
    } else {
        s
    }));
    if start >= v.len() {
        return None;
    }
    let limit: u128 = if neg {
        0x8000_0000_0000_0000
    } else {
        0x7fff_ffff_ffff_ffff
    };
    let mut acc: u128 = 0;
    let mut k: usize = start;
    while k < v.len()
        invariant
            start <= k <= v.len(),
            2 <= radix <= 36,
            digits == v@.skip(start as int),
            spec_all_digits(digits.take(k - start), radix as int),
            acc == spec_digits_value(digits.take(k - start), radix as int),
            acc <= limit,
            s == v@.skip(from as int),
            digits == (if s.len() > 0 && (s[0] == '-' || s[0] == '+') {
                s.drop_first()
            } else {
                s
            }),
            digits.len() > 0,
            neg == (s.len() > 0 && s[0] == '-'),
            neg ==> limit == 0x8000_0000_0000_0000,
            !neg ==> limit == 0x7fff_ffff_ffff_ffff,
        decreases v.len() - k,
    {
        let ghost i = k - start;
        assert(digits[i as int] == v@[k as int]);
        assert(digits.take(i + 1).drop_last() =~= digits.take(i as int));
        let d = match digit_value(v[k]) {
            Some(d) => d,
            None => {
                assert(!spec_all_digits(digits, radix as int)) by {
                    assert(spec_digit_value(digits[i as int]) is None);
                }
                return None;
            },
        };
        if d >= radix {
            assert(!spec_all_digits(digits, radix as int)) by {
                assert(spec_digit_value(digits[i as int])->0 >= radix);
            }
            return None;
        }
        assert forall|m: int| 0 <= m < digits.take(i + 1).len() implies (#[trigger] spec_digit_value(
            digits.take(i + 1)[m],
        )) is Some && spec_digit_value(digits.take(i + 1)[m])->0 < radix by {
            if m < i {
                assert(digits.take(i + 1)[m] == digits.take(i as int)[m]);
            }
        }
        assert(acc * (radix as u128) <= 0x8000_0000_0000_0000 * 36) by (nonlinear_arith)
            requires
                acc <= 0x8000_0000_0000_0000,
                radix <= 36,
        ;
        let next = acc * (radix as u128) + d as u128;
        k = k + 1;
        if next > limit {
            proof {
                if spec_all_digits(digits, radix as int) {
                    assert(digits.take(digits.len() as int) =~= digits);
                    lemma_digits_value_grows(digits, radix as int, k - start, digits.len() as int);
                }
            }
            return None;
        }
        acc = next;
    }
    assert(digits.take(k - start) =~= digits);
    if neg {
        if acc == 0x8000_0000_0000_0000 {
            Some(-0x8000_0000_0000_0000i64)
        } else {
            Some(-(acc as i64))
        }
    } else {
        Some(acc as i64)
    }
}

/// The form of the literal `s` (see `spec_number_form`).
pub fn number_form(s: &str) -> (r: Result<NumberForm, String>)
    requires
        number_form_defined(s@),
    ensures
        match spec_number_form(s@) {
            Ok((Some(v), _, _, _)) => r == Ok::<NumberForm, String>(NumberForm::Integer(v)),
            Ok((None, text, base, power)) => r matches Ok(NumberForm::Decimal { text: t, base: b, power: p })
                && t@ == text && b == base && p == power,
            Err(e) => r matches Err(x) && x@ == e,
        },
{
    let st = normalize(s);
    let has_x = contains_char(&st, 'x');
    let n = st.len();
    let zero_start = (n >= 1 && st[0] == '0') || (n >= 2 && (st[0] == '-' || st[0] == '+')
        && st[1] == '0');
    let only_zero = (n == 1 && st[0] == '0') || (n == 2 && (st[0] == '-' || st[0] == '+')
        && st[1] == '0');
    proof {
        assert(only_zero == (st@ == seq!['0'] || st@ == seq!['+', '0'] || st@ == seq!['-', '0']))
            by {
            if st@ == seq!['0'] || st@ == seq!['+', '0'] || st@ == seq!['-', '0'] {
            }
            if only_zero {
                if n == 1 {
                    assert(st@ =~= seq!['0']);
                } else if st[0] == '-' {
                    assert(st@ =~= seq!['-', '0']);
                } else {
                    assert(st@ =~= seq!['+', '0']);
                }
            }
        }
    }
    let radix_form = has_x || (zero_start && !contains_char(&st, '.') && !contains_char(&st, '8')
        && !contains_char(&st, '9') && !only_zero);
    if radix_form {
        let p_neg_hex = vec!['-', '0', 'x'];
        let p_pos_hex = vec!['+', '0', 'x'];
        let p_hex = vec!['0', 'x'];
        let p_neg_oct = vec!['-', '0'];
        let p_pos_oct = vec!['+', '0'];
        assert(p_neg_hex@ =~= seq!['-', '0', 'x']);
        assert(p_pos_hex@ =~= seq!['+', '0', 'x']);
        assert(p_hex@ =~= seq!['0', 'x']);
        assert(p_neg_oct@ =~= seq!['-', '0']);
        assert(p_pos_oct@ =~= seq!['+', '0']);
        let (from, radix, neg) = if has_prefix(&st, &p_neg_hex) {
            (3, 16, true)
        } else if has_prefix(&st, &p_pos_hex) {
            (3, 16, false)
        } else if has_prefix(&st, &p_hex) {
            (2, 16, false)
        } else if has_prefix(&st, &p_neg_oct) {
            (2, 8, true)
        } else if has_prefix(&st, &p_pos_oct) {
            (2, 8, false)
        } else {
            assert(st@.contains('x') ==> (starts_with(st@, seq!['0']) || starts_with(
                st@,
                seq!['-', '0'],
            ) || starts_with(st@, seq!['+', '0'])));
            if n >= 1 && st[0] == '0' {
                assert(st@.subrange(0, 1) =~= seq!['0']);
            }
            if n >= 2 && st[0] == '-' && st[1] == '0' {
                assert(st@.subrange(0, 2) =~= seq!['-', '0']);
            }
            if n >= 2 && st[0] == '+' && st[1] == '0' {
                assert(st@.subrange(0, 2) =~= seq!['+', '0']);
            }
            assert(starts_with(st@, seq!['0']));
            (1, 8, false)
        };
        assert(spec_radix_parts(st@) == (st@.skip(from as int), radix as int, neg));
        match from_str_radix(&st, from, radix) {
            Some(v) => {
                if neg {
                    Ok(NumberForm::Integer(-v))
                } else {
                    Ok(NumberForm::Integer(v))
                }
            },
            None => {
                let mut e = str_to_string("ParseFloatError. ");
                append_str(&mut e, s);
                append_str(&mut e, " can't be parsed into i64");
                Err(e)
            },
        }
    } else {
        let (len, base, power): (usize, u32, u32) = if n >= 1 && st[n - 1] == 'k' {
            (1, 1000, 1)
        } else if n >= 2 && st[n - 2] == 'k' && st[n - 1] == 'i' {
            (2, 1024, 1)
        } else if n >= 1 && st[n - 1] == 'm' {
            (1, 1000, 2)
        } else if n >= 2 && st[n - 2] == 'm' && st[n - 1] == 'i' {
            (2, 1024, 2)
        } else if n >= 1 && st[n - 1] == 'g' {
            (1, 1000, 3)
        } else if n >= 2 && st[n - 2] == 'g' && st[n - 1] == 'i' {
            (2, 1024, 3)
        } else if n >= 1 && st[n - 1] == 't' {
            (1, 1000, 4)
        } else if n >= 2 && st[n - 2] == 't' && st[n - 1] == 'i' {
            (2, 1024, 4)
        } else {
            (0, 1, 0)
        };
        let text = crate::util::text::chars_to_string(&st, 0, n - len);
        assert(st@.subrange(0, n - len) =~= st@.take(n - len));
        Ok(NumberForm::Decimal { text, base, power })
    }
}

/// Whether `number_form` can read `s` (see `number_form_defined`).
pub fn number_form_is_defined(s: &str) -> (b: bool)
    ensures
        b == number_form_defined(s@),
{
    let st = normalize(s);
    let n = st.len();
    let p_neg_hex = vec!['-', '0', 'x'];
    let p_pos_hex = vec!['+', '0', 'x'];
    let p_hex = vec!['0', 'x'];
    let p_neg_oct = vec!['-', '0'];
    let p_pos_oct = vec!['+', '0'];
    let p_oct = vec!['0'];
    assert(p_neg_hex@ =~= seq!['-', '0', 'x']);
    assert(p_pos_hex@ =~= seq!['+', '0', 'x']);
    assert(p_hex@ =~= seq!['0', 'x']);
    assert(p_neg_oct@ =~= seq!['-', '0']);
    assert(p_pos_oct@ =~= seq!['+', '0']);
    assert(p_oct@ =~= seq!['0']);
    let has_x = contains_char(&st, 'x');
    if has_x && !(has_prefix(&st, &p_oct) || has_prefix(&st, &p_neg_oct) || has_prefix(
        &st,
        &p_pos_oct,
    )) {
        return false;
    }
    let zero_start = (n >= 1 && st[0] == '0') || (n >= 2 && (st[0] == '-' || st[0] == '+')
        && st[1] == '0');
    let only_zero = (n == 1 && st[0] == '0') || (n == 2 && (st[0] == '-' || st[0] == '+')
        && st[1] == '0');
    proof {
        if only_zero {
            if n == 1 {
                assert(st@ =~= seq!['0']);
            } else if st[0] == '-' {
                assert(st@ =~= seq!['-', '0']);
            } else {
                assert(st@ =~= seq!['+', '0']);
            }
        }
    }
    let radix_form = has_x || (zero_start && !contains_char(&st, '.') && !contains_char(&st, '8')
        && !contains_char(&st, '9') && !only_zero);
    let neg_hex = has_prefix(&st, &p_neg_hex);
    let neg_oct = !neg_hex && !has_prefix(&st, &p_pos_hex) && !has_prefix(&st, &p_hex)
        && has_prefix(&st, &p_neg_oct);
    if radix_form && (neg_hex || neg_oct) {
        let from: usize = if neg_hex {
            3
        } else {
            2
        };
        let radix: u32 = if neg_hex {
            16
        } else {
            8
        };
        let r = from_str_radix(&st, from, radix);
        match r {
            Some(v) => v != -0x8000_0000_0000_0000i64,
            None => true,
        }
    } else {
        true
    }
}

} // verus!
