//! The PromQL lexer: a state machine that turns a query into lexemes.
use vstd::prelude::*;

use crate::parser::token::{
    get_keyword_token, spec_keyword_token, TokenId, T_ADD, T_AT, T_COLON, T_COMMA, T_DIV,
    T_DURATION, T_EQL, T_EQLC, T_EQL_REGEX, T_GTE, T_GTR, T_IDENTIFIER, T_LEFT_BRACE,
    T_LEFT_BRACKET, T_LEFT_PAREN, T_LSS, T_LTE, T_METRIC_IDENTIFIER, T_MOD, T_MUL, T_NEQ,
    T_NEQ_REGEX, T_NUMBER, T_POW, T_RIGHT_BRACE, T_RIGHT_BRACKET, T_RIGHT_PAREN, T_STRING, T_SUB,
};
use crate::util::text::{
    append_str, byte_len, chars_to_string, push_char, spec_ascii_lowercase, str_to_chars,
    str_to_string, to_ascii_lower, utf8_len,
};

verus! {

// ---------------------------------------------------------------------------------------
// Characters
// ---------------------------------------------------------------------------------------
/// Whether `ch` is an ASCII letter or `_`.
pub open spec fn spec_is_alpha(ch: char) -> bool {
    ch == '_' || ('a' <= ch && ch <= 'z') || ('A' <= ch && ch <= 'Z')
}

/// Whether `ch` is an ASCII decimal digit.
pub open spec fn spec_is_digit(ch: char) -> bool {
    '0' <= ch && ch <= '9'
}

/// Whether `ch` is an ASCII letter, digit or `_`.
pub open spec fn spec_is_alpha_numeric(ch: char) -> bool {
    spec_is_alpha(ch) || spec_is_digit(ch)
}

/// Whether `ch` is ASCII white space: space, tab, line feed, form feed or carriage return.
pub open spec fn spec_is_space(ch: char) -> bool {
    ch == ' ' || ch == '\t' || ch == '\n' || ch == '\x0c' || ch == '\r'
}

/// Whether `ch` is an ASCII hexadecimal digit.
pub open spec fn spec_is_hex_digit(ch: char) -> bool {
    spec_is_digit(ch) || ('a' <= ch && ch <= 'f') || ('A' <= ch && ch <= 'F')
}

/// Whether `ch` opens a string: `'`, `"` or a backtick.
pub open spec fn is_string_symbol(ch: char) -> bool {
    ch == '\'' || ch == '"' || ch == '`'
}

/// Whether `ch` may follow a backslash in a string.
pub open spec fn is_escape_symbol(ch: char) -> bool {
    ch == 'a' || ch == 'b' || ch == 'f' || ch == 'n' || ch == 'r' || ch == 't' || ch == 'v' || ch
        == '\\' || ('0' <= ch && ch <= '7') || ch == 'x' || ch == 'u' || ch == 'U'
}

pub fn is_alpha(ch: char) -> (b: bool)
    ensures
        b == spec_is_alpha(ch),
{
    ch == '_' || ('a' <= ch && ch <= 'z') || ('A' <= ch && ch <= 'Z')
}

pub fn is_alpha_numeric(ch: char) -> (b: bool)
    ensures
        b == spec_is_alpha_numeric(ch),
{
    is_alpha(ch) || ('0' <= ch && ch <= '9')
}

fn is_digit(ch: char) -> (b: bool)
    ensures
        b == spec_is_digit(ch),
{
    '0' <= ch && ch <= '9'
}

fn is_space(ch: char) -> (b: bool)
    ensures
        b == spec_is_space(ch),
{
    ch == ' ' || ch == '\t' || ch == '\n' || ch == '\x0c' || ch == '\r'
}

/// Whether `s` is a label name: a letter or `_`, then letters, digits or `_`.
pub open spec fn spec_is_label(s: Seq<char>) -> bool {
    s.len() > 0 && spec_is_alpha(s[0]) && forall|i: int|
        1 <= i < s.len() ==> spec_is_alpha_numeric(#[trigger] s[i])
}

pub fn is_label(s: &str) -> (b: bool)
    ensures
        b == spec_is_label(s@),
{
    let cs = str_to_chars(s);
    if cs.len() == 0 {
        return false;
    }
    if !is_alpha(cs[0]) {
        return false;
    }
    let mut i: usize = 1;
    while i < cs.len()
        invariant
            1 <= i <= cs.len(),
            cs@ == s@,
            forall|k: int| 1 <= k < i ==> spec_is_alpha_numeric(#[trigger] cs@[k]),
        decreases cs.len() - i,
    {
        if !is_alpha_numeric(cs[i]) {
            return false;
        }
        i = i + 1;
    }
    true
}

pub(crate) fn len_utf8(c: char) -> (n: usize)
    ensures
        n == utf8_len(c),
{
    let v = c as u32;
    if v < 0x80 {
        1
    } else if v < 0x800 {
        2
    } else if v < 0x10000 {
        3
    } else {
        4
    }
}

proof fn lemma_byte_len_step(s: Seq<char>, i: int)
    requires
        0 <= i < s.len(),
    ensures
        byte_len(s.take(i + 1)) == byte_len(s.take(i)) + utf8_len(s[i]),
{
    assert(s.take(i + 1).drop_last() =~= s.take(i));
}

proof fn lemma_byte_len_mono(s: Seq<char>, i: int, j: int)
    requires
        0 <= i <= j <= s.len(),
    ensures
        byte_len(s.take(i)) <= byte_len(s.take(j)),
        i < j ==> byte_len(s.take(i)) < byte_len(s.take(j)),
        i + 1 < j ==> byte_len(s.take(i)) + 2 <= byte_len(s.take(j)),
    decreases j - i,
{
    if i < j {
        lemma_byte_len_mono(s, i, j - 1);
        lemma_byte_len_step(s, j - 1);
    }
}

proof fn lemma_byte_len_bound(s: Seq<char>)
    ensures
        byte_len(s) <= 4 * s.len(),
    decreases s.len(),
{
    if s.len() > 0 {
        lemma_byte_len_bound(s.drop_last());
    }
}

/// Wraps the `Debug` formatting of a `char`.
///
/// Trusted: calls `format!("{:?}", c)` of std. The text is named by `char_debug`; std
/// documents it as the char in single quotes, escaped as `char::escape_debug` does, which
/// leaves the printable ASCII chars other than `\` and `'` as they are.
#[verifier::external_body]
fn char_debug_string(c: char) -> (s: String)
    ensures
        s@ == char_debug(c),
        (' ' <= c && c <= '~' && c != '\\' && c != '\'') ==> s@ == seq!['\'', c, '\''],
{
    format!("{:?}", c)
}

/// The `Debug` text of `c` that std writes.
pub uninterp spec fn char_debug(c: char) -> Seq<char>;

// ---------------------------------------------------------------------------------------
// Lexemes
// ---------------------------------------------------------------------------------------
/// A lexeme: a token id and the span of its text, as a byte offset and a byte length into
/// the input. The span of a string lexeme leaves out the quotes.
#[derive(Debug, Clone, Copy, PartialEq, Eq, Structural)]
pub struct Lexeme {
    pub tok_id: TokenId,
    pub start: usize,
    pub len: usize,
}

/// The lexeme type that the lexer produces.
pub type LexemeType = Lexeme;

impl Lexeme {
    pub fn new(tok_id: TokenId, start: usize, len: usize) -> (l: Lexeme)
        ensures
            l == (Lexeme { tok_id, start, len }),
    {
        Lexeme { tok_id, start, len }
    }

    pub fn tok_id(&self) -> (t: TokenId)
        ensures
            t == self.tok_id,
    {
        self.tok_id
    }
}

// ---------------------------------------------------------------------------------------
// Scanning context
// ---------------------------------------------------------------------------------------
/// The classes of chars that the scanning loops accept.
#[derive(Clone, Copy, PartialEq, Eq, Structural)]
pub enum Class {
    Digit,
    HexDigit,
    Space,
    AlphaNumeric,
    /// the duration units `s`, `m`, `h`, `d`, `w` and `y`
    Unit,
    /// the duration units but `y`
    UnitNoYear,
    Exponent,
    Sign,
    HexMarker,
    /// letters, digits, `_` and `:`
    MetricChar,
}

pub open spec fn in_class(cls: Class, c: char) -> bool {
    match cls {
        Class::Digit => spec_is_digit(c),
        Class::HexDigit => spec_is_hex_digit(c),
        Class::Space => spec_is_space(c),
        Class::AlphaNumeric => spec_is_alpha_numeric(c),
        Class::Unit => c == 's' || c == 'm' || c == 'h' || c == 'd' || c == 'w' || c == 'y',
        Class::UnitNoYear => c == 's' || c == 'm' || c == 'h' || c == 'd' || c == 'w',
        Class::Exponent => c == 'e' || c == 'E',
        Class::Sign => c == '+' || c == '-',
        Class::HexMarker => c == 'x' || c == 'X',
        Class::MetricChar => spec_is_alpha_numeric(c) || c == ':',
    }
}

fn class_has(cls: Class, c: char) -> (b: bool)
    ensures
        b == in_class(cls, c),
{
    match cls {
        Class::Digit => is_digit(c),
        Class::HexDigit => is_digit(c) || ('a' <= c && c <= 'f') || ('A' <= c && c <= 'F'),
        Class::Space => is_space(c),
        Class::AlphaNumeric => is_alpha_numeric(c),
        Class::Unit => c == 's' || c == 'm' || c == 'h' || c == 'd' || c == 'w' || c == 'y',
        Class::UnitNoYear => c == 's' || c == 'm' || c == 'h' || c == 'd' || c == 'w',
        Class::Exponent => c == 'e' || c == 'E',
        Class::Sign => c == '+' || c == '-',
        Class::HexMarker => c == 'x' || c == 'X',
        Class::MetricChar => is_alpha_numeric(c) || c == ':',
    }
}

/// The end of the run of chars of class `cls` that starts at `s[i]`.
pub open spec fn run_end(s: Seq<char>, i: int, cls: Class) -> int
    decreases s.len() - i,
{
    if 0 <= i < s.len() && in_class(cls, s[i]) {
        run_end(s, i + 1, cls)
    } else {
        i
    }
}

proof fn lemma_run_end(s: Seq<char>, i: int, cls: Class)
    requires
        0 <= i <= s.len(),
    ensures
        i <= run_end(s, i, cls) <= s.len(),
        forall|k: int| i <= k < run_end(s, i, cls) ==> in_class(cls, #[trigger] s[k]),
        run_end(s, i, cls) < s.len() ==> !in_class(cls, s[run_end(s, i, cls)]),
    decreases s.len() - i,
{
    if i < s.len() && in_class(cls, s[i]) {
        lemma_run_end(s, i + 1, cls);
    }
}

/// The position after the number that starts at `s[i]`, and whether the char there may
/// end a number: an optional `0x`/`0X` prefix, digits (hexadecimal after the prefix), an
/// optional fraction and an optional exponent.
pub open spec fn scan_number_spec(s: Seq<char>, i: int) -> (int, bool) {
    let zero = i < s.len() && s[i] == '0';
    let hex = zero && i + 1 < s.len() && in_class(Class::HexMarker, s[i + 1]);
    let j0 = if hex {
        i + 2
    } else if zero {
        i + 1
    } else {
        i
    };
    let cls = if hex {
        Class::HexDigit
    } else {
        Class::Digit
    };
    let j1 = run_end(s, j0, cls);
    let j2 = if j1 < s.len() && s[j1] == '.' {
        run_end(s, j1 + 1, cls)
    } else {
        j1
    };
    let j3 = if j2 < s.len() && in_class(Class::Exponent, s[j2]) {
        let k = if j2 + 1 < s.len() && in_class(Class::Sign, s[j2 + 1]) {
            j2 + 2
        } else {
            j2 + 1
        };
        run_end(s, k, Class::Digit)
    } else {
        j2
    };
    (j3, !(j3 < s.len() && (spec_is_alpha(s[j3]) || s[j3] == '.')))
}

/// The position after the further duration components that start at `s[j]` (a duration's
/// first number and unit already read), and whether the duration ends well: not followed
/// by a letter or digit, and every number followed by a unit.
pub open spec fn duration_tail_spec(s: Seq<char>, j: int) -> (int, bool)
    decreases s.len() - j,
{
    if 0 <= j < s.len() && spec_is_digit(s[j]) {
        let k = run_end(s, j, Class::Digit);
        if k > j && k < s.len() && in_class(Class::UnitNoYear, s[k]) {
            let k2 = if k + 1 < s.len() && s[k + 1] == 's' {
                k + 2
            } else {
                k + 1
            };
            duration_tail_spec(s, k2)
        } else {
            (k, false)
        }
    } else {
        (j, !(0 <= j < s.len() && spec_is_alpha_numeric(s[j])))
    }
}

/// The position after the duration units that start at `s[i]` (its first number already
/// read), and whether they form a duration.
pub open spec fn remaining_duration_spec(s: Seq<char>, i: int) -> (int, bool) {
    if !(0 <= i < s.len() && in_class(Class::Unit, s[i])) {
        (i, false)
    } else {
        let j = if i + 1 < s.len() && s[i + 1] == 's' {
            i + 2
        } else {
            i + 1
        };
        duration_tail_spec(s, j)
    }
}

proof fn lemma_duration_tail_bounds(s: Seq<char>, j: int)
    requires
        0 <= j <= s.len(),
    ensures
        j <= duration_tail_spec(s, j).0 <= s.len(),
        duration_tail_spec(s, j).1 ==> !(duration_tail_spec(s, j).0 < s.len()
            && spec_is_alpha_numeric(s[duration_tail_spec(s, j).0])),
    decreases s.len() - j,
{
    if j < s.len() && spec_is_digit(s[j]) {
        lemma_run_end(s, j, Class::Digit);
        let k = run_end(s, j, Class::Digit);
        if k > j && k < s.len() && in_class(Class::UnitNoYear, s[k]) {
            let k2 = if k + 1 < s.len() && s[k + 1] == 's' {
                k + 2
            } else {
                k + 1
            };
            lemma_duration_tail_bounds(s, k2);
        }
    }
}

/// The position of the first char of `s[i..]` that is `\` or `symbol`, or the length of
/// `s` if there is none.
pub open spec fn string_end(s: Seq<char>, i: int, symbol: char) -> int
    decreases s.len() - i,
{
    if 0 <= i < s.len() && s[i] != '\\' && s[i] != symbol {
        string_end(s, i + 1, symbol)
    } else {
        i
    }
}

proof fn lemma_string_end(s: Seq<char>, i: int, symbol: char)
    requires
        0 <= i <= s.len(),
    ensures
        i <= string_end(s, i, symbol) <= s.len(),
        string_end(s, i, symbol) < s.len() ==> (s[string_end(s, i, symbol)] == '\\' || s[string_end(
            s,
            i,
            symbol,
        )] == symbol),
    decreases s.len() - i,
{
    if i < s.len() && s[i] != '\\' && s[i] != symbol {
        lemma_string_end(s, i + 1, symbol);
    }
}

/// The position after the line comment that ends at or before `s[i..]`'s first line break.
pub open spec fn comment_end(s: Seq<char>, i: int) -> int
    decreases s.len() - i,
{
    if 0 <= i < s.len() {
        if s[i] == '\r' || s[i] == '\n' {
            i + 1
        } else {
            comment_end(s, i + 1)
        }
    } else {
        i
    }
}

proof fn lemma_comment_end(s: Seq<char>, i: int)
    requires
        0 <= i <= s.len(),
    ensures
        i <= comment_end(s, i) <= s.len(),
        forall|q: int| i <= q < comment_end(s, i) - 1 ==> #[trigger] s[q] != '\r' && s[q] != '\n',
    decreases s.len() - i,
{
    if i < s.len() && !(s[i] == '\r' || s[i] == '\n') {
        lemma_comment_end(s, i + 1);
    }
}

proof fn lemma_scan_number_progress(s: Seq<char>, i: int)
    requires
        0 <= i <= s.len(),
    ensures
        i <= scan_number_spec(s, i).0 <= s.len(),
        (i < s.len() && spec_is_digit(s[i])) ==> scan_number_spec(s, i).0 >= i + 1,
        (i + 1 < s.len() && s[i] == '.' && spec_is_digit(s[i + 1])) ==> scan_number_spec(s, i).0
            >= i + 1,
        scan_number_spec(s, i).0 < s.len() ==> !spec_is_digit(s[scan_number_spec(s, i).0]),
{
    let zero = i < s.len() && s[i] == '0';
    let hex = zero && i + 1 < s.len() && in_class(Class::HexMarker, s[i + 1]);
    let j0 = if hex {
        i + 2
    } else if zero {
        i + 1
    } else {
        i
    };
    let cls = if hex {
        Class::HexDigit
    } else {
        Class::Digit
    };
    lemma_run_end(s, j0, cls);
    let j1 = run_end(s, j0, cls);
    if j1 < s.len() && s[j1] == '.' {
        lemma_run_end(s, j1 + 1, cls);
    }
    let j2 = if j1 < s.len() && s[j1] == '.' {
        run_end(s, j1 + 1, cls)
    } else {
        j1
    };
    if j2 < s.len() && in_class(Class::Exponent, s[j2]) {
        let k = if j2 + 1 < s.len() && in_class(Class::Sign, s[j2 + 1]) {
            j2 + 2
        } else {
            j2 + 1
        };
        lemma_run_end(s, k, Class::Digit);
    }
    if i < s.len() && spec_is_digit(s[i]) && !zero {
        assert(in_class(Class::Digit, s[i]));
        lemma_run_end(s, i + 1, Class::Digit);
        assert(run_end(s, i, Class::Digit) == run_end(s, i + 1, Class::Digit));
    }
}

proof fn lemma_remaining_duration_progress(s: Seq<char>, i: int)
    requires
        0 <= i <= s.len(),
    ensures
        i <= remaining_duration_spec(s, i).0 <= s.len(),
        remaining_duration_spec(s, i).1 ==> !(remaining_duration_spec(s, i).0 < s.len()
            && spec_is_alpha_numeric(s[remaining_duration_spec(s, i).0])),
{
    if i < s.len() && in_class(Class::Unit, s[i]) {
        let j = if i + 1 < s.len() && s[i + 1] == 's' {
            i + 2
        } else {
            i + 1
        };
        lemma_duration_tail_bounds(s, j);
    }
}

// ---------------------------------------------------------------------------------------
// The text of a token
// ---------------------------------------------------------------------------------------
/// The chars of a token that is a fixed symbol; `None` for the other tokens.
pub open spec fn symbol_text(t: TokenId) -> Option<Seq<char>> {
    if t == T_AT {
        Some(seq!['@'])
    } else if t == T_COMMA {
        Some(seq![','])
    } else if t == T_MUL {
        Some(seq!['*'])
    } else if t == T_DIV {
        Some(seq!['/'])
    } else if t == T_MOD {
        Some(seq!['%'])
    } else if t == T_ADD {
        Some(seq!['+'])
    } else if t == T_SUB {
        Some(seq!['-'])
    } else if t == T_POW {
        Some(seq!['^'])
    } else if t == T_EQLC {
        Some(seq!['=', '='])
    } else if t == T_EQL {
        Some(seq!['='])
    } else if t == T_NEQ {
        Some(seq!['!', '='])
    } else if t == T_LTE {
        Some(seq!['<', '='])
    } else if t == T_LSS {
        Some(seq!['<'])
    } else if t == T_GTE {
        Some(seq!['>', '='])
    } else if t == T_GTR {
        Some(seq!['>'])
    } else if t == T_EQL_REGEX {
        Some(seq!['=', '~'])
    } else if t == T_NEQ_REGEX {
        Some(seq!['!', '~'])
    } else if t == T_LEFT_PAREN {
        Some(seq!['('])
    } else if t == T_RIGHT_PAREN {
        Some(seq![')'])
    } else if t == T_LEFT_BRACE {
        Some(seq!['{'])
    } else if t == T_RIGHT_BRACE {
        Some(seq!['}'])
    } else if t == T_LEFT_BRACKET {
        Some(seq!['['])
    } else if t == T_RIGHT_BRACKET {
        Some(seq![']'])
    } else if t == T_COLON {
        Some(seq![':'])
    } else {
        None
    }
}

/// Whether `text` (the whole token, quotes included) has the shape of the token `t`: a
/// symbol is its chars; a string is quoted by one quote char on both ends; a number starts
/// with a digit or `.` or is `inf` or `nan`; a duration starts with a digit or `.`; an identifier
/// starts with a letter or `_` and holds no `:`; a metric identifier holds a `:`; any
/// other token is the keyword, in any case, that names it.
pub open spec fn token_shape(t: TokenId, text: Seq<char>) -> bool {
    match symbol_text(t) {
        Some(sym) => text == sym,
        None => if t == T_STRING {
            text.len() >= 2 && is_string_symbol(text[0]) && text.last() == text[0]
        } else if t == T_NUMBER {
            text.len() >= 1 && (spec_is_digit(text[0]) || text[0] == '.' || spec_keyword_token(
                spec_ascii_lowercase(text),
            ) == Some(T_NUMBER))
        } else if t == T_DURATION {
            text.len() >= 1 && (spec_is_digit(text[0]) || text[0] == '.')
        } else if t == T_IDENTIFIER {
            text.len() >= 1 && spec_is_alpha(text[0]) && !text.contains(':')
        } else if t == T_METRIC_IDENTIFIER {
            text.len() >= 1 && (spec_is_alpha(text[0]) || text[0] == ':') && text.contains(':')
        } else {
            spec_keyword_token(spec_ascii_lowercase(text)) == Some(t)
        }
    }
}

/// Whether a lexeme of the token `t` may end right before `s[j]`: a name, a number or a
/// duration is not followed by a letter, digit or `_`, and `<` or `>` not by `=`.
pub open spec fn token_ends_at(t: TokenId, s: Seq<char>, j: int) -> bool {
    0 <= j < s.len() ==> if t == T_LSS || t == T_GTR {
        s[j] != '='
    } else if symbol_text(t) is Some || t == T_STRING {
        true
    } else {
        !spec_is_alpha_numeric(s[j])
    }
}

/// The texts of one and of two chars from `b` on.
proof fn lemma_short_texts(s: Seq<char>, b: int)
    requires
        0 <= b,
    ensures
        b + 1 <= s.len() ==> s.subrange(b, b + 1) == seq![s[b]],
        b + 2 <= s.len() ==> s.subrange(b, b + 2) == seq![s[b], s[b + 1]],
{
    if b + 1 <= s.len() {
        assert(s.subrange(b, b + 1) =~= seq![s[b]]);
    }
    if b + 2 <= s.len() {
        assert(s.subrange(b, b + 2) =~= seq![s[b], s[b + 1]]);
    }
}

/// The cursor over the chars of the input.
struct Context {
    chars: Vec<char>,
    /// index of the next char
    idx: usize,
    /// byte offset of the current token's start
    start: usize,
    /// char index of the current token's start
    start_idx: usize,
    /// byte offset of the next char
    pos: usize,
    /// nesting depth of ( ) expressions
    paren_depth: usize,
    /// whether a { is open
    brace_open: bool,
    /// whether a [ is open
    bracket_open: bool,
    /// whether a ':' came after the open [
    got_colon: bool,
}

/// What consuming a char does: `d` is `c` with the next char, handed out as `r`, consumed.
spec fn popped(c: Context, d: Context, r: Option<char>) -> bool {
    &&& same_marks(c, d)
    &&& c.idx < c.chars@.len() ==> r == Some(c.chars@[c.idx as int]) && d.idx == c.idx + 1
    &&& c.idx >= c.chars@.len() ==> r is None && d.idx == c.idx
}

/// What stepping back does: `d` is `c` with the cursor one char back, `b` telling whether
/// there was a char to step back over.
spec fn backed_up(c: Context, d: Context, b: bool) -> bool {
    &&& same_marks(c, d)
    &&& b == (c.idx > 0)
    &&& b ==> d.idx == c.idx - 1
    &&& !b ==> d.idx == c.idx
}

/// Stepping back right after consuming a char undoes the consuming: the cursor, the byte
/// offset and every mark are as before, and the char is the next one again.
proof fn lemma_backup_undoes_pop(c0: Context, c1: Context, c2: Context, ch: char, b: bool)
    requires
        c0.wf(),
        c2.wf(),
        popped(c0, c1, Some(ch)),
        backed_up(c1, c2, b),
    ensures
        b,
        c2 == c0,
        c2.idx < c2.chars@.len() && c2.chars@[c2.idx as int] == ch,
{
}

impl Context {
    spec fn wf(&self) -> bool {
        &&& self.idx <= self.chars@.len()
        &&& self.start_idx <= self.chars@.len()
        &&& self.pos == byte_len(self.chars@.take(self.idx as int))
        &&& self.start == byte_len(self.chars@.take(self.start_idx as int))
        &&& 4 * self.chars@.len() <= usize::MAX
    }

    fn new(input: &str) -> (c: Context)
        requires
            4 * input@.len() <= usize::MAX,
        ensures
            c.wf(),
            c.chars@ == input@,
            c.idx == 0,
            c.start_idx == 0,
            c.paren_depth == 0,
            !c.brace_open,
            !c.bracket_open,
            !c.got_colon,
    {
        let chars = str_to_chars(input);
        assert(chars@.take(0) =~= Seq::<char>::empty());
        Context {
            chars,
            idx: 0,
            start: 0,
            start_idx: 0,
            pos: 0,
            paren_depth: 0,
            brace_open: false,
            bracket_open: false,
            got_colon: false,
        }
    }

    /// Consumes the next char.
    fn pop(&mut self) -> (c: Option<char>)
        requires
            old(self).wf(),
        ensures
            popped(*old(self), *final(self), c),
            final(self).wf(),
            final(self).chars == old(self).chars,
            final(self).start_idx == old(self).start_idx,
            final(self).start == old(self).start,
            final(self).paren_depth == old(self).paren_depth,
            final(self).brace_open == old(self).brace_open,
            final(self).bracket_open == old(self).bracket_open,
            final(self).got_colon == old(self).got_colon,
            old(self).idx < old(self).chars@.len() ==> c == Some(old(self).chars@[old(self).idx as int])
                && final(self).idx == old(self).idx + 1,
            old(self).idx >= old(self).chars@.len() ==> c.is_none() && final(self).idx == old(self).idx,
    {
        if self.idx < self.chars.len() {
            let ch = self.chars[self.idx];
            proof {
                lemma_byte_len_step(self.chars@, self.idx as int);
                lemma_byte_len_mono(self.chars@, self.idx + 1, self.chars@.len() as int);
                lemma_byte_len_bound(self.chars@);
                assert(self.chars@.take(self.chars@.len() as int) =~= self.chars@);
            }
            self.pos = self.pos + len_utf8(ch);
            self.idx = self.idx + 1;
            Some(ch)
        } else {
            None
        }
    }

    /// Steps back one char; does nothing at the beginning.
    fn backup(&mut self) -> (b: bool)
        requires
            old(self).wf(),
        ensures
            backed_up(*old(self), *final(self), b),
            final(self).wf(),
            final(self).chars == old(self).chars,
            final(self).start_idx == old(self).start_idx,
            final(self).start == old(self).start,
            final(self).paren_depth == old(self).paren_depth,
            final(self).brace_open == old(self).brace_open,
            final(self).bracket_open == old(self).bracket_open,
            final(self).got_colon == old(self).got_colon,
            b == (old(self).idx > 0),
            b ==> final(self).idx == old(self).idx - 1,
            !b ==> final(self).idx == old(self).idx,
    {
        if self.idx == 0 {
            return false;
        }
        let ch = self.chars[self.idx - 1];
        proof {
            lemma_byte_len_step(self.chars@, self.idx - 1);
        }
        self.pos = self.pos - len_utf8(ch);
        self.idx = self.idx - 1;
        true
    }

    /// The next char, without consuming it.
    fn peek(&self) -> (c: Option<char>)
        ensures
            self.idx < self.chars@.len() ==> c == Some(self.chars@[self.idx as int]),
            self.idx >= self.chars@.len() ==> c.is_none(),
    {
        if self.idx < self.chars.len() {
            Some(self.chars[self.idx])
        } else {
            None
        }
    }

    /// The lexeme of the text from the token's start to the cursor; a string lexeme leaves
    /// out the quotes.
    fn lexeme(&self, token_id: TokenId) -> (l: Lexeme)
        requires
            self.wf(),
            self.start_idx <= self.idx,
            token_id == T_STRING ==> self.start_idx + 2 <= self.idx,
        ensures
            l.tok_id == token_id,
            token_id != T_STRING ==> l.start == self.start && l.len == self.pos - self.start,
            token_id == T_STRING ==> l.start == self.start + 1 && l.len == self.pos - self.start
                - 2,
    {
        proof {
            lemma_byte_len_mono(self.chars@, self.start_idx as int, self.idx as int);
            lemma_byte_len_mono(self.chars@, self.idx as int, self.chars@.len() as int);
            lemma_byte_len_bound(self.chars@);
            assert(self.chars@.take(self.chars@.len() as int) =~= self.chars@);
        }
        let mut start = self.start;
        let mut len = self.pos - self.start;
        if token_id == T_STRING {
            start = start + 1;
            len = len - 2;
        }
        Lexeme::new(token_id, start, len)
    }

    /// Moves the token's start to the cursor.
    fn ignore(&mut self)
        requires
            old(self).wf(),
        ensures
            final(self).wf(),
            final(self).chars == old(self).chars,
            final(self).idx == old(self).idx,
            final(self).start_idx == old(self).idx,
            final(self).paren_depth == old(self).paren_depth,
            final(self).brace_open == old(self).brace_open,
            final(self).bracket_open == old(self).bracket_open,
            final(self).got_colon == old(self).got_colon,
    {
        self.start = self.pos;
        self.start_idx = self.idx;
    }

    /// The text from the token's start to the cursor.
    fn lexeme_string(&self) -> (s: String)
        requires
            self.wf(),
            self.start_idx <= self.idx,
        ensures
            s@ == self.chars@.subrange(self.start_idx as int, self.idx as int),
    {
        chars_to_string(&self.chars, self.start_idx, self.idx)
    }
}

// ---------------------------------------------------------------------------------------
// The state machine
// ---------------------------------------------------------------------------------------
enum State {
    Start,
    End,
    Lexeme(TokenId),
    Identifier,
    KeywordOrIdentifier,
    NumberOrDuration,
    InsideBrackets,
    InsideBraces,
    LineComment,
    Space,
    /// inside a string opened by the char
    String(char),
    /// after a backslash inside a string opened by the char
    Escape(char),
    Failed(String),
}

spec fn rank(st: State) -> nat {
    match st {
        State::End => 0,
        State::Failed(_) => 1,
        State::InsideBraces => 2,
        State::InsideBrackets => 2,
        State::Start => 3,
        State::Lexeme(_) => 4,
        State::LineComment => 4,
        _ => 5,
    }
}

spec fn measure(st: State, ctx: Context) -> nat {
    (8 * (ctx.chars@.len() - ctx.idx) + rank(st)) as nat
}

/// What holds of the cursor in each state.
spec fn wf_state(st: State, ctx: Context) -> bool {
    let s = ctx.chars@;
    let i = ctx.idx as int;
    let b = ctx.start_idx as int;
    &&& ctx.wf()
    &&& b <= i
    &&& match st {
        State::Start => b == i,
        State::InsideBraces => b == i && ctx.brace_open,
        State::InsideBrackets => b == i && ctx.bracket_open,
        State::Lexeme(t) => b == i || (token_shape(t, s.subrange(b, i)) && token_ends_at(t, s, i)),
        State::String(sym) | State::Escape(sym) => b + 1 <= i && s[b] == sym && is_string_symbol(
            sym,
        ),
        State::Space => b + 1 == i && spec_is_space(s[i - 1]),
        State::NumberOrDuration => b + 1 == i && (spec_is_digit(s[i - 1]) || (s[i - 1] == '.' && i
            < s.len() && spec_is_digit(s[i]))),
        State::KeywordOrIdentifier => b + 1 == i && (spec_is_alpha(s[b]) || s[b] == ':'),
        State::Identifier => b + 1 == i && spec_is_alpha(s[b]),
        State::LineComment => b + 1 == i && s[b] == '#',
        _ => true,
    }
}

/// A step of the state machine from `st` over `ctx` to `st2` over `ctx2`: the new state
/// holds, the input is the same, and the machine made progress.
spec fn step_ok(st: State, ctx: Context, st2: State, ctx2: Context) -> bool {
    &&& wf_state(st2, ctx2)
    &&& ctx2.chars == ctx.chars
    &&& measure(st2, ctx2) < measure(st, ctx)
    &&& (st2 is Lexeme ==> ctx2.start_idx < ctx2.idx)
    &&& ctx.start_idx <= ctx2.start_idx
    &&& blank_between(ctx.chars@, ctx.start_idx as int, ctx2.start_idx as int)
    &&& (st2 is End ==> ctx2.start_idx == ctx2.chars@.len())
}

spec fn same_marks(a: Context, b: Context) -> bool {
    &&& a.chars == b.chars
    &&& a.start == b.start
    &&& a.start_idx == b.start_idx
    &&& a.paren_depth == b.paren_depth
    &&& a.brace_open == b.brace_open
    &&& a.bracket_open == b.bracket_open
    &&& a.got_colon == b.got_colon
}

// ---------------------------------------------------------------------------------------
// The lexer as a function of its input
// ---------------------------------------------------------------------------------------
/// The scanning marks of the lexer: the index of the next char, the index where the
/// current token starts, the depth of open `(`, and whether a `{` or a `[` is open and a
/// `:` came after the open `[`.
pub struct Cur {
    pub idx: int,
    pub start: int,
    pub paren: int,
    pub brace: bool,
    pub bracket: bool,
    pub colon: bool,
}

/// The states of the lexer, an error carrying its message.
pub enum LexState {
    Start,
    End,
    Lexeme(TokenId),
    Identifier,
    KeywordOrIdentifier,
    NumberOrDuration,
    InsideBrackets,
    InsideBraces,
    LineComment,
    Space,
    Str(char),
    Escape(char),
    Failed(Seq<char>),
}

/// The marks with the next char at `i`.
pub open spec fn at_idx(c: Cur, i: int) -> Cur {
    Cur { idx: i, ..c }
}

/// The char at `i`, if there is one.
pub open spec fn char_at(s: Seq<char>, i: int) -> Option<char> {
    if 0 <= i < s.len() {
        Some(s[i])
    } else {
        None
    }
}

/// The position after consuming one more char from `i`, if there is one.
pub open spec fn after_pop(s: Seq<char>, i: int) -> int {
    if i < s.len() {
        i + 1
    } else {
        i
    }
}

/// A step from the start of a token outside braces and brackets.
pub open spec fn start_step(s: Seq<char>, c: Cur) -> (LexState, Cur) {
    let i = c.idx;
    let c1 = at_idx(c, i + 1);
    let c2 = at_idx(c, i + 2);
    let nx = char_at(s, i + 1);
    if c.brace {
        (LexState::InsideBraces, c)
    } else if c.bracket {
        (LexState::InsideBrackets, c)
    } else if i >= s.len() {
        if c.paren != 0 {
            (LexState::Failed("unclosed left parenthesis"@), c)
        } else {
            (LexState::End, c)
        }
    } else {
        let ch = s[i];
        if ch == '#' {
            (LexState::LineComment, c1)
        } else if ch == '@' {
            (LexState::Lexeme(T_AT), c1)
        } else if ch == ',' {
            (LexState::Lexeme(T_COMMA), c1)
        } else if ch == '*' {
            (LexState::Lexeme(T_MUL), c1)
        } else if ch == '/' {
            (LexState::Lexeme(T_DIV), c1)
        } else if ch == '%' {
            (LexState::Lexeme(T_MOD), c1)
        } else if ch == '+' {
            (LexState::Lexeme(T_ADD), c1)
        } else if ch == '-' {
            (LexState::Lexeme(T_SUB), c1)
        } else if ch == '^' {
            (LexState::Lexeme(T_POW), c1)
        } else if ch == '=' {
            if nx == Some('=') {
                (LexState::Lexeme(T_EQLC), c2)
            } else if nx == Some('~') {
                (LexState::Failed("unexpected character after '=': '~'"@), c1)
            } else {
                (LexState::Lexeme(T_EQL), c1)
            }
        } else if ch == '!' {
            match nx {
                Some(x) => if x == '=' {
                    (LexState::Lexeme(T_NEQ), c2)
                } else {
                    (LexState::Failed("unexpected character after '!': '"@ + seq![x] + "'"@), c2)
                },
                None => (LexState::Failed("'!' can not be at the end"@), c1),
            }
        } else if ch == '<' {
            if nx == Some('=') {
                (LexState::Lexeme(T_LTE), c2)
            } else {
                (LexState::Lexeme(T_LSS), c1)
            }
        } else if ch == '>' {
            if nx == Some('=') {
                (LexState::Lexeme(T_GTE), c2)
            } else {
                (LexState::Lexeme(T_GTR), c1)
            }
        } else if spec_is_space(ch) {
            let e = run_end(s, i, Class::Space);
            (LexState::Start, Cur { idx: e, start: e, ..c })
        } else if spec_is_digit(ch) {
            (LexState::NumberOrDuration, c1)
        } else if ch == '.' {
            match nx {
                Some(x) => if spec_is_digit(x) {
                    (LexState::NumberOrDuration, c1)
                } else {
                    (LexState::Failed("unexpected character after '.': '"@ + seq![x] + "'"@), c1)
                },
                None => (LexState::Failed("unexpected character: '.'"@), c1),
            }
        } else if spec_is_alpha(ch) || ch == ':' {
            (LexState::KeywordOrIdentifier, c1)
        } else if is_string_symbol(ch) {
            (LexState::Str(ch), c1)
        } else if ch == '(' {
            if c.paren < usize::MAX {
                (LexState::Lexeme(T_LEFT_PAREN), Cur { paren: c.paren + 1, ..c1 })
            } else {
                (LexState::Failed("too many left parentheses"@), c1)
            }
        } else if ch == ')' {
            if c.paren == 0 {
                (LexState::Failed("unexpected right parenthesis ')'"@), c1)
            } else {
                (LexState::Lexeme(T_RIGHT_PAREN), Cur { paren: c.paren - 1, ..c1 })
            }
        } else if ch == '{' {
            (LexState::Lexeme(T_LEFT_BRACE), Cur { brace: true, ..c1 })
        } else if ch == '}' {
            (LexState::Failed("unexpected right brace '}'"@), c1)
        } else if ch == '[' {
            (LexState::Lexeme(T_LEFT_BRACKET), Cur { colon: false, bracket: true, ..c1 })
        } else if ch == ']' {
            (LexState::Failed("unexpected right bracket ']'"@), c1)
        } else {
            (LexState::Failed("unexpected character: "@ + char_debug(ch)), c1)
        }
    }
}

/// A step inside the braces of a vector selector.
pub open spec fn braces_step(s: Seq<char>, c: Cur) -> (LexState, Cur) {
    let i = c.idx;
    let c1 = at_idx(c, i + 1);
    let c2 = at_idx(c, i + 2);
    let nx = char_at(s, i + 1);
    if i >= s.len() {
        (LexState::Failed("unexpected end of input inside braces"@), c)
    } else {
        let ch = s[i];
        if ch == '#' {
            (LexState::LineComment, c1)
        } else if ch == ',' {
            (LexState::Lexeme(T_COMMA), c1)
        } else if spec_is_space(ch) {
            (LexState::Space, c1)
        } else if spec_is_alpha(ch) {
            (LexState::Identifier, c1)
        } else if is_string_symbol(ch) {
            (LexState::Str(ch), c1)
        } else if ch == '=' {
            if nx == Some('~') {
                (LexState::Lexeme(T_EQL_REGEX), c2)
            } else {
                (LexState::Lexeme(T_EQL), c1)
            }
        } else if ch == '!' {
            match nx {
                Some(x) => if x == '~' {
                    (LexState::Lexeme(T_NEQ_REGEX), c2)
                } else if x == '=' {
                    (LexState::Lexeme(T_NEQ), c2)
                } else {
                    (
                        LexState::Failed(
                            "unexpected character after '!' inside braces: '"@ + seq![x] + "'"@,
                        ),
                        c2,
                    )
                },
                None => (LexState::Failed("'!' can not be at the end"@), c1),
            }
        } else if ch == '{' {
            (LexState::Failed("unexpected left brace '{' inside braces"@), c1)
        } else if ch == '}' {
            (LexState::Lexeme(T_RIGHT_BRACE), Cur { brace: false, ..c1 })
        } else {
            (LexState::Failed("unexpected character inside braces: '"@ + seq![ch] + "'"@), c1)
        }
    }
}

/// A duration inside brackets, from the token's start at `c.start`.
pub open spec fn duration_step(s: Seq<char>, c: Cur) -> (LexState, Cur) {
    let (d_end, d_ok) = remaining_duration_spec(s, scan_number_spec(s, c.start).0);
    if d_ok {
        (LexState::Lexeme(T_DURATION), at_idx(c, d_end))
    } else {
        let e = after_pop(s, d_end);
        (LexState::Failed("bad duration syntax: "@ + s.subrange(c.start, e)), at_idx(c, e))
    }
}

/// A step inside the brackets of a range or a subquery.
pub open spec fn brackets_step(s: Seq<char>, c: Cur) -> (LexState, Cur) {
    let i = c.idx;
    let c1 = at_idx(c, i + 1);
    if i >= s.len() {
        (LexState::Failed("unexpected end of input inside brackets"@), c)
    } else {
        let ch = s[i];
        if spec_is_space(ch) {
            (LexState::Space, c1)
        } else if ch == ':' {
            if c.colon {
                (LexState::Failed("unexpected second colon(:) in brackets"@), c1)
            } else if i >= 1 && s[i - 1] == '[' {
                (LexState::Failed("expect duration before first colon(:) in brackets"@), c1)
            } else {
                (LexState::Lexeme(T_COLON), Cur { colon: true, ..c1 })
            }
        } else if spec_is_digit(ch) {
            duration_step(s, c)
        } else if ch == ']' {
            (LexState::Lexeme(T_RIGHT_BRACKET), Cur { bracket: false, colon: false, ..c1 })
        } else if ch == '[' {
            (LexState::Failed("unexpected left brace '[' inside brackets"@), c1)
        } else {
            (LexState::Failed("unexpected character inside brackets: '"@ + seq![ch] + "'"@), c1)
        }
    }
}

/// A step inside a string opened by `sym`.
pub open spec fn string_step(s: Seq<char>, c: Cur, sym: char) -> (LexState, Cur) {
    let e = string_end(s, c.idx, sym);
    if e >= s.len() {
        (LexState::Failed("unterminated quoted string "@ + seq![sym]), at_idx(c, e))
    } else if s[e] == '\\' {
        (LexState::Escape(sym), at_idx(c, e + 1))
    } else {
        (LexState::Lexeme(T_STRING), at_idx(c, e + 1))
    }
}

/// A step after a backslash inside a string opened by `sym`.
pub open spec fn escape_step(s: Seq<char>, c: Cur, sym: char) -> (LexState, Cur) {
    let i = c.idx;
    if i < s.len() {
        if s[i] == sym || is_escape_symbol(s[i]) {
            (LexState::Str(sym), at_idx(c, i + 1))
        } else {
            (
                LexState::Failed("unknown escape sequence '"@ + seq![s[i]] + "'"@),
                at_idx(c, i + 1),
            )
        }
    } else {
        (LexState::Failed("escape sequence not terminated"@), c)
    }
}

/// The token of the name `text`: its keyword's token, else a metric identifier if it holds
/// a `:`, else an identifier.
pub open spec fn name_token(text: Seq<char>) -> TokenId {
    match spec_keyword_token(spec_ascii_lowercase(text)) {
        Some(t) => t,
        None => if text.contains(':') {
            T_METRIC_IDENTIFIER
        } else {
            T_IDENTIFIER
        },
    }
}

/// The rest of a keyword or identifier.
pub open spec fn keyword_step(s: Seq<char>, c: Cur) -> (LexState, Cur) {
    let e = run_end(s, c.idx, Class::MetricChar);
    (LexState::Lexeme(name_token(s.subrange(c.start, e))), at_idx(c, e))
}

/// A number, or else a duration, from the token's start at `c.start`.
pub open spec fn number_step(s: Seq<char>, c: Cur) -> (LexState, Cur) {
    let (n_end, n_ok) = scan_number_spec(s, c.start);
    let (d_end, d_ok) = remaining_duration_spec(s, n_end);
    if n_ok {
        (LexState::Lexeme(T_NUMBER), at_idx(c, n_end))
    } else if d_ok {
        (LexState::Lexeme(T_DURATION), at_idx(c, d_end))
    } else {
        let e = after_pop(s, d_end);
        (LexState::Failed("bad number or duration syntax: "@ + s.subrange(c.start, e)), at_idx(c, e))
    }
}

/// One step of the lexer from the state `st`.
pub open spec fn lex_step(s: Seq<char>, st: LexState, c: Cur) -> (LexState, Cur) {
    match st {
        LexState::Start => start_step(s, c),
        LexState::End => (LexState::Failed("End state can not shift forward."@), c),
        LexState::Lexeme(_) => (LexState::Start, c),
        LexState::Str(sym) => string_step(s, c, sym),
        LexState::KeywordOrIdentifier => keyword_step(s, c),
        LexState::Identifier => (
            LexState::Lexeme(T_IDENTIFIER),
            at_idx(c, run_end(s, c.idx, Class::AlphaNumeric)),
        ),
        LexState::NumberOrDuration => number_step(s, c),
        LexState::InsideBrackets => brackets_step(s, c),
        LexState::InsideBraces => braces_step(s, c),
        LexState::LineComment => {
            let e = comment_end(s, c.idx);
            (LexState::Start, Cur { idx: e, start: e, ..c })
        },
        LexState::Escape(sym) => escape_step(s, c, sym),
        LexState::Space => {
            let e = run_end(s, c.idx - 1, Class::Space);
            (LexState::Start, Cur { idx: e, start: e, ..c })
        },
        LexState::Failed(_) => (LexState::End, c),
    }
}

pub open spec fn lex_rank(st: LexState) -> int {
    match st {
        LexState::End => 0,
        LexState::Failed(_) => 1,
        LexState::InsideBraces => 2,
        LexState::InsideBrackets => 2,
        LexState::Start => 3,
        LexState::Lexeme(_) => 4,
        LexState::LineComment => 4,
        _ => 5,
    }
}

/// What every step of the lexer makes smaller.
pub open spec fn lex_measure(s: Seq<char>, st: LexState, c: Cur) -> int {
    8 * (s.len() - c.idx) + lex_rank(st)
}

/// The lexeme of the token `t` over the chars `s[b..i]`, its span in bytes (a string's
/// span leaves out the quotes).
pub open spec fn lexeme_of(s: Seq<char>, t: TokenId, b: int, i: int) -> Lexeme {
    let from = byte_len(s.take(b));
    let to = byte_len(s.take(i));
    if t == T_STRING {
        Lexeme { tok_id: t, start: (from + 1) as usize, len: (to - from - 2) as usize }
    } else {
        Lexeme { tok_id: t, start: from as usize, len: (to - from) as usize }
    }
}

/// The items that the lexer hands out from the state `st` over the marks `c`: each lexeme
/// in turn, and the error that ends the lexing, if one does.
pub open spec fn lex_items(s: Seq<char>, st: LexState, c: Cur) -> Seq<Result<Lexeme, Seq<char>>>
    decreases lex_measure(s, st, c),
{
    let (st2, c2) = lex_step(s, st, c);
    if !(0 <= lex_measure(s, st2, c2) < lex_measure(s, st, c)) {
        Seq::empty()
    } else {
        match st2 {
            LexState::Lexeme(t) => seq![Ok(lexeme_of(s, t, c2.start, c2.idx))] + lex_items(
                s,
                st2,
                Cur { start: c2.idx, ..c2 },
            ),
            LexState::Failed(m) => seq![Err(m)],
            LexState::End => Seq::empty(),
            _ => lex_items(s, st2, c2),
        }
    }
}

/// The items that lexing `s` hands out.
pub open spec fn spec_lex(s: Seq<char>) -> Seq<Result<Lexeme, Seq<char>>> {
    lex_items(
        s,
        LexState::Start,
        Cur { idx: 0, start: 0, paren: 0, brace: false, bracket: false, colon: false },
    )
}

/// The outcome of lexing `s`: the error that ended it, or an error for an input without
/// any lexeme, or else the lexemes.
pub open spec fn spec_tokenize(s: Seq<char>) -> Result<Seq<Lexeme>, Seq<char>> {
    let items = spec_lex(s);
    if items.len() == 0 {
        Err(no_expression_msg())
    } else if items.last() is Err {
        Err(items.last()->Err_0)
    } else {
        Ok(items.map_values(|x: Result<Lexeme, Seq<char>>| x->Ok_0))
    }
}

/// The view of a lexer item.
pub open spec fn item_view(x: Result<Lexeme, String>) -> Result<Lexeme, Seq<char>> {
    match x {
        Ok(l) => Ok(l),
        Err(e) => Err(e@),
    }
}

spec fn cur(c: Context) -> Cur {
    Cur {
        idx: c.idx as int,
        start: c.start_idx as int,
        paren: c.paren_depth as int,
        brace: c.brace_open,
        bracket: c.bracket_open,
        colon: c.got_colon,
    }
}

spec fn abs_state(st: State) -> LexState {
    match st {
        State::Start => LexState::Start,
        State::End => LexState::End,
        State::Lexeme(t) => LexState::Lexeme(t),
        State::Identifier => LexState::Identifier,
        State::KeywordOrIdentifier => LexState::KeywordOrIdentifier,
        State::NumberOrDuration => LexState::NumberOrDuration,
        State::InsideBrackets => LexState::InsideBrackets,
        State::InsideBraces => LexState::InsideBraces,
        State::LineComment => LexState::LineComment,
        State::Space => LexState::Space,
        State::String(c) => LexState::Str(c),
        State::Escape(c) => LexState::Escape(c),
        State::Failed(m) => LexState::Failed(m@),
    }
}

/// The state `st` over `ctx` is the one that `r` gives.
spec fn step_is(r: (LexState, Cur), st: State, ctx: Context) -> bool {
    &&& abs_state(st) == r.0
    &&& cur(ctx) == r.1
}

proof fn lemma_measure_eq(st: State, ctx: Context)
    requires
        ctx.idx <= ctx.chars@.len(),
    ensures
        measure(st, ctx) as int == lex_measure(ctx.chars@, abs_state(st), cur(ctx)),
{
}

fn msg_char(prefix: &str, c: char, suffix: &str) -> (s: String)
    ensures
        s@ == prefix@ + seq![c] + suffix@,
{
    let mut s = str_to_string(prefix);
    push_char(&mut s, c);
    append_str(&mut s, suffix);
    s
}

fn msg_text(prefix: &str, t: String) -> (s: String)
    ensures
        s@ == prefix@ + t@,
{
    let mut s = str_to_string(prefix);
    append_str(&mut s, t.as_str());
    s
}

/// The lexer: the current state and the cursor.
struct Lexer {
    state: State,
    ctx: Context,
}

impl Lexer {
    spec fn wf(&self) -> bool {
        wf_state(self.state, self.ctx)
    }

    fn new(input: &str) -> (l: Lexer)
        requires
            4 * input@.len() <= usize::MAX,
        ensures
            l.wf(),
            l.state is Start,
            l.ctx.chars@ == input@,
            l.ctx.idx == 0,
            cur(l.ctx) == (Cur { idx: 0, start: 0, paren: 0, brace: false, bracket: false, colon: false }),
    {
        Lexer { state: State::Start, ctx: Context::new(input) }
    }

    /// Consumes the next char if it is `c`.
    fn accept_char(&mut self, c: char) -> (b: bool)
        requires
            old(self).ctx.wf(),
        ensures
            final(self).ctx.wf(),
            final(self).state == old(self).state,
            same_marks(final(self).ctx, old(self).ctx),
            b == (old(self).ctx.idx < old(self).ctx.chars@.len() && old(self).ctx.chars@[old(
                self,
            ).ctx.idx as int] == c),
            b ==> final(self).ctx.idx == old(self).ctx.idx + 1,
            !b ==> final(self).ctx.idx == old(self).ctx.idx,
    {
        match self.ctx.peek() {
            Some(ch) => {
                if ch == c {
                    self.ctx.pop();
                    true
                } else {
                    false
                }
            },
            None => false,
        }
    }

    /// Consumes the next char if it is of class `cls`.
    fn accept_class(&mut self, cls: Class) -> (b: bool)
        requires
            old(self).ctx.wf(),
        ensures
            final(self).ctx.wf(),
            final(self).state == old(self).state,
            same_marks(final(self).ctx, old(self).ctx),
            b == (old(self).ctx.idx < old(self).ctx.chars@.len() && in_class(
                cls,
                old(self).ctx.chars@[old(self).ctx.idx as int],
            )),
            b ==> final(self).ctx.idx == old(self).ctx.idx + 1,
            !b ==> final(self).ctx.idx == old(self).ctx.idx,
    {
        match self.ctx.peek() {
            Some(ch) => {
                if class_has(cls, ch) {
                    self.ctx.pop();
                    true
                } else {
                    false
                }
            },
            None => false,
        }
    }

    /// Consumes the run of chars of class `cls` at the cursor.
    fn accept_run(&mut self, cls: Class)
        requires
            old(self).ctx.wf(),
        ensures
            final(self).ctx.wf(),
            final(self).state == old(self).state,
            same_marks(final(self).ctx, old(self).ctx),
            final(self).ctx.idx == run_end(old(self).ctx.chars@, old(self).ctx.idx as int, cls),
    {
        proof {
            lemma_run_end(self.ctx.chars@, self.ctx.idx as int, cls);
        }
        let ghost s = self.ctx.chars@;
        let ghost e = run_end(s, self.ctx.idx as int, cls);
        loop
            invariant
                self.ctx.wf(),
                self.state == old(self).state,
                same_marks(self.ctx, old(self).ctx),
                s == self.ctx.chars@,
                e == run_end(s, old(self).ctx.idx as int, cls),
                run_end(s, self.ctx.idx as int, cls) == e,
                self.ctx.idx <= e,
            ensures
                self.ctx.wf(),
                self.state == old(self).state,
                same_marks(self.ctx, old(self).ctx),
                self.ctx.idx == e,
            decreases s.len() - self.ctx.idx,
        {
            let ghost j = self.ctx.idx as int;
            proof {
                lemma_run_end(s, j, cls);
            }
            if !self.accept_class(cls) {
                assert(run_end(s, j, cls) == j);
                break;
            }
            assert(run_end(s, j, cls) == run_end(s, j + 1, cls));
            proof {
                lemma_run_end(s, j + 1, cls);
            }
        }
    }

    /// Scans a number at the cursor (see `scan_number_spec`); the scanned text is not
    /// necessarily a valid number, which the parser catches.
    fn scan_number(&mut self) -> (ok: bool)
        requires
            old(self).ctx.wf(),
        ensures
            final(self).ctx.wf(),
            final(self).state == old(self).state,
            same_marks(final(self).ctx, old(self).ctx),
            (final(self).ctx.idx as int, ok) == scan_number_spec(
                old(self).ctx.chars@,
                old(self).ctx.idx as int,
            ),
    {
        let ghost s = self.ctx.chars@;
        let ghost i = self.ctx.idx as int;
        let mut hex_digit = false;
        if self.accept_char('0') && self.accept_class(Class::HexMarker) {
            hex_digit = true;
        }
        let cls = if hex_digit {
            Class::HexDigit
        } else {
            Class::Digit
        };
        proof {
            lemma_run_end(s, self.ctx.idx as int, cls);
        }
        self.accept_run(cls);
        if self.accept_char('.') {
            proof {
                lemma_run_end(s, self.ctx.idx as int, cls);
            }
            self.accept_run(cls);
        }
        if self.accept_class(Class::Exponent) {
            self.accept_class(Class::Sign);
            proof {
                lemma_run_end(s, self.ctx.idx as int, Class::Digit);
            }
            self.accept_run(Class::Digit);
        }
        match self.ctx.peek() {
            Some(ch) => !(is_alpha(ch) || ch == '.'),
            None => true,
        }
    }

    /// Scans the units of a duration whose first number has been scanned (see
    /// `remaining_duration_spec`).
    fn accept_remaining_duration(&mut self) -> (ok: bool)
        requires
            old(self).ctx.wf(),
        ensures
            final(self).ctx.wf(),
            final(self).state == old(self).state,
            same_marks(final(self).ctx, old(self).ctx),
            (final(self).ctx.idx as int, ok) == remaining_duration_spec(
                old(self).ctx.chars@,
                old(self).ctx.idx as int,
            ),
    {
        let ghost s = self.ctx.chars@;
        if !self.accept_class(Class::Unit) {
            return false;
        }
        self.accept_char('s');
        loop
            invariant
                self.ctx.wf(),
                self.state == old(self).state,
                same_marks(self.ctx, old(self).ctx),
                s == self.ctx.chars@,
                remaining_duration_spec(s, old(self).ctx.idx as int) == duration_tail_spec(
                    s,
                    self.ctx.idx as int,
                ),
            ensures
                self.ctx.wf(),
                self.state == old(self).state,
                same_marks(self.ctx, old(self).ctx),
                s == self.ctx.chars@,
                remaining_duration_spec(s, old(self).ctx.idx as int) == (
                self.ctx.idx as int,
                !(self.ctx.idx < s.len() && spec_is_alpha_numeric(s[self.ctx.idx as int])),
                ),
            decreases s.len() - self.ctx.idx,
        {
            let ghost j = self.ctx.idx as int;
            if !self.accept_class(Class::Digit) {
                assert(duration_tail_spec(s, j) == (j, !(0 <= j < s.len() && spec_is_alpha_numeric(
                    s[j],
                ))));
                break;
            }
            proof {
                lemma_run_end(s, self.ctx.idx as int, Class::Digit);
                assert(run_end(s, j, Class::Digit) == run_end(s, j + 1, Class::Digit));
            }
            self.accept_run(Class::Digit);
            if !self.accept_class(Class::UnitNoYear) {
                return false;
            }
            self.accept_char('s');
        }
        match self.ctx.peek() {
            Some(ch) => !is_alpha_numeric(ch),
            None => true,
        }
    }

    /// Consumes a run of white space whose first char is the one just consumed, and moves
    /// the token's start past it.
    fn ignore_space(&mut self)
        requires
            old(self).ctx.wf(),
            old(self).ctx.start_idx <= old(self).ctx.idx,
            old(self).ctx.idx >= 1,
            spec_is_space(old(self).ctx.chars@[old(self).ctx.idx - 1]),
        ensures
            final(self).ctx.wf(),
            final(self).state == old(self).state,
            final(self).ctx.chars == old(self).ctx.chars,
            final(self).ctx.paren_depth == old(self).ctx.paren_depth,
            final(self).ctx.brace_open == old(self).ctx.brace_open,
            final(self).ctx.bracket_open == old(self).ctx.bracket_open,
            final(self).ctx.got_colon == old(self).ctx.got_colon,
            final(self).ctx.idx == run_end(old(self).ctx.chars@, old(self).ctx.idx - 1, Class::Space),
            final(self).ctx.idx >= old(self).ctx.idx,
            final(self).ctx.start_idx == final(self).ctx.idx,
    {
        let ghost s = self.ctx.chars@;
        let ghost i = self.ctx.idx - 1;
        self.ctx.backup();
        proof {
            lemma_run_end(s, i + 1, Class::Space);
            assert(run_end(s, i, Class::Space) == run_end(s, i + 1, Class::Space));
        }
        self.accept_run(Class::Space);
        self.ctx.ignore();
    }

    /// Consumes a line comment, up to and including the line break.
    fn ignore_comment_line(&mut self) -> (st: State)
        requires
            old(self).wf(),
            old(self).state is LineComment,
        ensures
            final(self).state == old(self).state,
            step_ok(old(self).state, old(self).ctx, st, final(self).ctx),
            step_is(lex_step(old(self).ctx.chars@, abs_state(old(self).state), cur(old(self).ctx)), st, final(self).ctx),
            st is Start,
            final(self).ctx.idx == comment_end(old(self).ctx.chars@, old(self).ctx.idx as int),
    {
        let ghost s = self.ctx.chars@;
        proof {
            lemma_comment_end(s, self.ctx.idx as int);
            lemma_blank_comment(s, self.ctx.start_idx as int);
        }
        loop
            invariant_except_break
                comment_end(s, old(self).ctx.idx as int) == comment_end(s, self.ctx.idx as int),
            invariant
                self.ctx.wf(),
                self.state == old(self).state,
                same_marks(self.ctx, old(self).ctx),
                s == self.ctx.chars@,
                old(self).ctx.idx <= self.ctx.idx,
            ensures
                self.ctx.wf(),
                self.state == old(self).state,
                same_marks(self.ctx, old(self).ctx),
                old(self).ctx.idx <= self.ctx.idx,
                comment_end(s, old(self).ctx.idx as int) == self.ctx.idx,
            decreases s.len() - self.ctx.idx,
        {
            let ghost j = self.ctx.idx as int;
            match self.ctx.pop() {
                Some(ch) => {
                    if ch == '\r' || ch == '\n' {
                        assert(comment_end(s, j) == j + 1);
                        break;
                    }
                },
                None => {
                    break;
                },
            }
        }
        self.ctx.ignore();
        State::Start
    }

    /// Scans the rest of an identifier inside braces.
    fn accept_identifier(&mut self) -> (st: State)
        requires
            old(self).wf(),
            old(self).state is Identifier,
        ensures
            final(self).state == old(self).state,
            step_ok(old(self).state, old(self).ctx, st, final(self).ctx),
            step_is(lex_step(old(self).ctx.chars@, abs_state(old(self).state), cur(old(self).ctx)), st, final(self).ctx),
            st == State::Lexeme(T_IDENTIFIER),
            final(self).ctx.idx == run_end(old(self).ctx.chars@, old(self).ctx.idx as int, Class::AlphaNumeric),
    {
        proof {
            lemma_run_end(self.ctx.chars@, self.ctx.idx as int, Class::AlphaNumeric);
        }
        self.accept_run(Class::AlphaNumeric);
        State::Lexeme(T_IDENTIFIER)
    }

    /// Scans the rest of a keyword or identifier: a keyword (compared in lower case) gives
    /// its token, a name with a `:` a metric identifier, any other name an identifier.
    fn accept_keyword_or_identifier(&mut self) -> (st: State)
        requires
            old(self).wf(),
            old(self).state is KeywordOrIdentifier,
        ensures
            final(self).state == old(self).state,
            step_ok(old(self).state, old(self).ctx, st, final(self).ctx),
            step_is(lex_step(old(self).ctx.chars@, abs_state(old(self).state), cur(old(self).ctx)), st, final(self).ctx),
            final(self).ctx.idx == run_end(old(self).ctx.chars@, old(self).ctx.idx as int, Class::MetricChar),
            ({
                let text = final(self).ctx.chars@.subrange(
                    final(self).ctx.start_idx as int,
                    final(self).ctx.idx as int,
                );
                st == State::Lexeme(
                    match spec_keyword_token(spec_ascii_lowercase(text)) {
                        Some(t) => t,
                        None => if text.contains(':') {
                            T_METRIC_IDENTIFIER
                        } else {
                            T_IDENTIFIER
                        },
                    },
                )
            }),
    {
        proof {
            lemma_run_end(self.ctx.chars@, self.ctx.idx as int, Class::MetricChar);
        }
        self.accept_run(Class::MetricChar);
        let s = self.ctx.lexeme_string();
        let cs = str_to_chars(s.as_str());
        let mut lower = String::new();
        let mut has_colon = false;
        let mut k: usize = 0;
        while k < cs.len()
            invariant
                k <= cs.len(),
                cs@ == s@,
                lower@ == spec_ascii_lowercase(cs@).take(k as int),
                has_colon == cs@.take(k as int).contains(':'),
            decreases cs.len() - k,
        {
            let ghost before = cs@.take(k as int);
            push_char(&mut lower, to_ascii_lower(cs[k]));
            if cs[k] == ':' {
                has_colon = true;
            }
            k = k + 1;
            assert(lower@ =~= spec_ascii_lowercase(cs@).take(k as int));
            assert(cs@.take(k as int) =~= before.push(cs@[k - 1]));
            proof {
                if cs@.take(k as int).contains(':') && cs@[k - 1] != ':' {
                    let j = choose|j: int| 0 <= j < k && cs@.take(k as int)[j] == ':';
                    assert(before[j] == ':');
                }
                if before.contains(':') {
                    let j = choose|j: int| 0 <= j < k - 1 && before[j] == ':';
                    assert(cs@.take(k as int)[j] == ':');
                }
                if cs@[k - 1] == ':' {
                    assert(cs@.take(k as int)[k - 1] == ':');
                }
            }
        }
        assert(spec_ascii_lowercase(cs@).take(cs@.len() as int) =~= spec_ascii_lowercase(cs@));
        assert(cs@.take(cs@.len() as int) =~= cs@);
        match get_keyword_token(lower.as_str()) {
            Some(token_id) => State::Lexeme(token_id),
            None => {
                if has_colon {
                    State::Lexeme(T_METRIC_IDENTIFIER)
                } else {
                    State::Lexeme(T_IDENTIFIER)
                }
            },
        }
    }

    /// Scans an escape sequence inside a string; the backslash has been consumed.
    fn accept_escape(&mut self, symbol: char) -> (st: State)
        requires
            old(self).wf(),
            old(self).state == State::Escape(symbol),
        ensures
            final(self).state == old(self).state,
            step_ok(old(self).state, old(self).ctx, st, final(self).ctx),
            step_is(lex_step(old(self).ctx.chars@, abs_state(old(self).state), cur(old(self).ctx)), st, final(self).ctx),
            ({
                let s = old(self).ctx.chars@;
                let i = old(self).ctx.idx as int;
                if i < s.len() {
                    final(self).ctx.idx == i + 1 && (if s[i] == symbol || is_escape_symbol(s[i]) {
                        st == State::String(symbol)
                    } else {
                        st matches State::Failed(m) && m@ == "unknown escape sequence '"@ + seq![s[i]]
                            + "'"@
                    })
                } else {
                    st matches State::Failed(m) && m@ == "escape sequence not terminated"@
                }
            }),
    {
        match self.ctx.pop() {
            Some(ch) => {
                if ch == symbol || ch == 'a' || ch == 'b' || ch == 'f' || ch == 'n' || ch == 'r'
                    || ch == 't' || ch == 'v' || ch == '\\' || ('0' <= ch && ch <= '7') || ch
                    == 'x' || ch == 'u' || ch == 'U' {
                    State::String(symbol)
                } else {
                    State::Failed(msg_char("unknown escape sequence '", ch, "'"))
                }
            },
            None => State::Failed(str_to_string("escape sequence not terminated")),
        }
    }

    /// Scans the rest of a string; the opening quote has been consumed.
    fn accept_string(&mut self, symbol: char) -> (st: State)
        requires
            old(self).wf(),
            old(self).state == State::String(symbol),
        ensures
            final(self).state == old(self).state,
            step_ok(old(self).state, old(self).ctx, st, final(self).ctx),
            step_is(lex_step(old(self).ctx.chars@, abs_state(old(self).state), cur(old(self).ctx)), st, final(self).ctx),
            ({
                let s = old(self).ctx.chars@;
                let e = string_end(s, old(self).ctx.idx as int, symbol);
                if e == s.len() {
                    final(self).ctx.idx == e && (st matches State::Failed(m) && m@
                        == "unterminated quoted string "@ + seq![symbol])
                } else {
                    final(self).ctx.idx == e + 1 && (if s[e] == '\\' {
                        st == State::Escape(symbol)
                    } else {
                        st == State::Lexeme(T_STRING)
                    })
                }
            }),
    {
        let ghost s = self.ctx.chars@;
        proof {
            lemma_string_end(s, self.ctx.idx as int, symbol);
        }
        loop
            invariant
                self.ctx.wf(),
                self.state == old(self).state,
                same_marks(self.ctx, old(self).ctx),
                s == self.ctx.chars@,
                old(self).ctx.idx <= self.ctx.idx <= string_end(s, old(self).ctx.idx as int, symbol),
                string_end(s, old(self).ctx.idx as int, symbol) == string_end(s, self.ctx.idx as int, symbol),
                old(self).state == State::String(symbol),
                old(self).wf(),
            decreases s.len() - self.ctx.idx,
        {
            let ghost j = self.ctx.idx as int;
            match self.ctx.pop() {
                Some(ch) => {
                    if ch == '\\' {
                        return State::Escape(symbol);
                    }
                    if ch == symbol {
                        return State::Lexeme(T_STRING);
                    }
                    proof {
                        lemma_string_end(s, j + 1, symbol);
                    }
                },
                None => {
                    let mut m = str_to_string("unterminated quoted string ");
                    push_char(&mut m, symbol);
                    assert(m@ =~= "unterminated quoted string "@ + seq![symbol]);
                    assert(string_end(s, old(self).ctx.idx as int, symbol) == s.len());
                    return State::Failed(m);
                },
            }
        }
    }

    /// Whether the char before the just consumed `:` is `[`.
    fn is_colon_the_first_char_in_brackets(&mut self) -> (b: bool)
        requires
            old(self).ctx.wf(),
            old(self).ctx.idx >= 1,
        ensures
            final(self).ctx.wf(),
            final(self).state == old(self).state,
            same_marks(final(self).ctx, old(self).ctx),
            final(self).ctx.idx == old(self).ctx.idx,
            b == (old(self).ctx.idx >= 2 && old(self).ctx.chars@[old(self).ctx.idx - 2] == '['),
    {
        self.ctx.backup();
        // the char before, if any
        let matched = if !self.ctx.backup() {
            false
        } else {
            let m = match self.ctx.peek() {
                Some(ch) => ch == '[',
                None => false,
            };
            self.ctx.pop();
            m
        };
        self.ctx.pop();
        matched
    }

    /// Scans a number or a duration; its first char has been consumed.
    fn accept_number_or_duration(&mut self) -> (st: State)
        requires
            old(self).wf(),
            old(self).state is NumberOrDuration,
        ensures
            final(self).state == old(self).state,
            step_ok(old(self).state, old(self).ctx, st, final(self).ctx),
            step_is(lex_step(old(self).ctx.chars@, abs_state(old(self).state), cur(old(self).ctx)), st, final(self).ctx),
            ({
                let s = old(self).ctx.chars@;
                let b = old(self).ctx.start_idx as int;
                let (n_end, n_ok) = scan_number_spec(s, b);
                let (d_end, d_ok) = remaining_duration_spec(s, n_end);
                if n_ok {
                    st == State::Lexeme(T_NUMBER) && final(self).ctx.idx == n_end
                } else if d_ok {
                    st == State::Lexeme(T_DURATION) && final(self).ctx.idx == d_end
                } else {
                    st matches State::Failed(m) && m@ == "bad number or duration syntax: "@
                        + s.subrange(b, final(self).ctx.idx as int)
                }
            }),
    {
        let ghost s = self.ctx.chars@;
        let ghost b = self.ctx.start_idx as int;
        self.ctx.backup();
        proof {
            lemma_scan_number_progress(s, b);
        }
        if self.scan_number() {
            return State::Lexeme(T_NUMBER);
        }
        proof {
            lemma_remaining_duration_progress(s, self.ctx.idx as int);
        }
        if self.accept_remaining_duration() {
            return State::Lexeme(T_DURATION);
        }
        // the next char is invalid, so it is taken into the message
        self.ctx.pop();
        State::Failed(msg_text("bad number or duration syntax: ", self.ctx.lexeme_string()))
    }

    /// Scans a duration inside brackets; its first digit has been consumed.
    fn accept_duration(&mut self) -> (st: State)
        requires
            old(self).ctx.wf(),
            old(self).ctx.idx >= 1,
            old(self).ctx.start_idx + 1 == old(self).ctx.idx,
            spec_is_digit(old(self).ctx.chars@[old(self).ctx.idx - 1]),
        ensures
            final(self).state == old(self).state,
            final(self).ctx.paren_depth == old(self).ctx.paren_depth,
            final(self).ctx.brace_open == old(self).ctx.brace_open,
            final(self).ctx.bracket_open == old(self).ctx.bracket_open,
            final(self).ctx.got_colon == old(self).ctx.got_colon,
            wf_state(st, final(self).ctx),
            final(self).ctx.chars == old(self).ctx.chars,
            final(self).ctx.start_idx == old(self).ctx.start_idx,
            final(self).ctx.idx >= old(self).ctx.idx,
            st is Lexeme || st is Failed,
            step_is(duration_step(old(self).ctx.chars@, cur(old(self).ctx)), st, final(self).ctx),
            ({
                let s = old(self).ctx.chars@;
                let b = old(self).ctx.start_idx as int;
                let (d_end, d_ok) = remaining_duration_spec(s, scan_number_spec(s, b).0);
                if d_ok {
                    st == State::Lexeme(T_DURATION) && final(self).ctx.idx == d_end
                } else {
                    st matches State::Failed(m) && m@ == "bad duration syntax: "@ + s.subrange(
                        b,
                        final(self).ctx.idx as int,
                    )
                }
            }),
    {
        let ghost s = self.ctx.chars@;
        let ghost b = self.ctx.start_idx as int;
        self.ctx.backup();
        proof {
            lemma_scan_number_progress(s, b);
        }
        self.scan_number();
        proof {
            lemma_remaining_duration_progress(s, self.ctx.idx as int);
        }
        if !self.accept_remaining_duration() {
            // this is to include the bad syntax
            self.ctx.pop();
            return State::Failed(msg_text("bad duration syntax: ", self.ctx.lexeme_string()));
        }
        State::Lexeme(T_DURATION)
    }

    /// Scans inside a vector selector's braces, where keywords are read as identifiers.
    fn inside_braces(&mut self) -> (st: State)
        requires
            old(self).wf(),
            old(self).state is InsideBraces,
        ensures
            final(self).state == old(self).state,
            step_ok(old(self).state, old(self).ctx, st, final(self).ctx),
            step_is(lex_step(old(self).ctx.chars@, abs_state(old(self).state), cur(old(self).ctx)), st, final(self).ctx),
            final(self).ctx.bracket_open == old(self).ctx.bracket_open,
            final(self).ctx.paren_depth == old(self).ctx.paren_depth,
            final(self).ctx.brace_open == !(st == State::Lexeme(T_RIGHT_BRACE)),
    {
        proof {
            lemma_short_texts(self.ctx.chars@, self.ctx.idx as int);
        }
        match self.ctx.pop() {
            Some(ch) => {
                if ch == '#' {
                    State::LineComment
                } else if ch == ',' {
                    State::Lexeme(T_COMMA)
                } else if is_space(ch) {
                    State::Space
                } else if is_alpha(ch) {
                    State::Identifier
                } else if ch == '\'' || ch == '"' || ch == '`' {
                    State::String(ch)
                } else if ch == '=' {
                    match self.ctx.peek() {
                        Some('~') => {
                            self.ctx.pop();
                            State::Lexeme(T_EQL_REGEX)
                        },
                        _ => State::Lexeme(T_EQL),
                    }
                } else if ch == '!' {
                    match self.ctx.pop() {
                        Some('~') => State::Lexeme(T_NEQ_REGEX),
                        Some('=') => State::Lexeme(T_NEQ),
                        Some(c) => State::Failed(
                            msg_char("unexpected character after '!' inside braces: '", c, "'"),
                        ),
                        None => State::Failed(str_to_string("'!' can not be at the end")),
                    }
                } else if ch == '{' {
                    State::Failed(str_to_string("unexpected left brace '{' inside braces"))
                } else if ch == '}' {
                    self.ctx.brace_open = false;
                    State::Lexeme(T_RIGHT_BRACE)
                } else {
                    State::Failed(msg_char("unexpected character inside braces: '", ch, "'"))
                }
            },
            None => State::Failed(str_to_string("unexpected end of input inside braces")),
        }
    }

    /// Scans inside the brackets of a range or a subquery.
    fn inside_brackets(&mut self) -> (st: State)
        requires
            old(self).wf(),
            old(self).state is InsideBrackets,
        ensures
            final(self).state == old(self).state,
            step_ok(old(self).state, old(self).ctx, st, final(self).ctx),
            step_is(lex_step(old(self).ctx.chars@, abs_state(old(self).state), cur(old(self).ctx)), st, final(self).ctx),
            final(self).ctx.brace_open == old(self).ctx.brace_open,
            final(self).ctx.paren_depth == old(self).ctx.paren_depth,
            final(self).ctx.bracket_open == !(st == State::Lexeme(T_RIGHT_BRACKET)),
    {
        proof {
            lemma_short_texts(self.ctx.chars@, self.ctx.idx as int);
        }
        match self.ctx.pop() {
            Some(ch) => {
                if is_space(ch) {
                    State::Space
                } else if ch == ':' {
                    if self.ctx.got_colon {
                        return State::Failed(
                            str_to_string("unexpected second colon(:) in brackets"),
                        );
                    }
                    if self.is_colon_the_first_char_in_brackets() {
                        return State::Failed(
                            str_to_string("expect duration before first colon(:) in brackets"),
                        );
                    }
                    self.ctx.got_colon = true;
                    State::Lexeme(T_COLON)
                } else if is_digit(ch) {
                    self.accept_duration()
                } else if ch == ']' {
                    self.ctx.bracket_open = false;
                    self.ctx.got_colon = false;
                    State::Lexeme(T_RIGHT_BRACKET)
                } else if ch == '[' {
                    State::Failed(str_to_string("unexpected left brace '[' inside brackets"))
                } else {
                    State::Failed(msg_char("unexpected character inside brackets: '", ch, "'"))
                }
            },
            None => State::Failed(str_to_string("unexpected end of input inside brackets")),
        }
    }

    /// Scans from the start of a token outside braces and brackets.
    fn start(&mut self) -> (st: State)
        requires
            old(self).wf(),
            old(self).state is Start,
        ensures
            final(self).state == old(self).state,
            step_ok(old(self).state, old(self).ctx, st, final(self).ctx),
            step_is(lex_step(old(self).ctx.chars@, abs_state(old(self).state), cur(old(self).ctx)), st, final(self).ctx),
    {
        proof {
            lemma_short_texts(self.ctx.chars@, self.ctx.idx as int);
        }
        if self.ctx.brace_open {
            return State::InsideBraces;
        }
        if self.ctx.bracket_open {
            return State::InsideBrackets;
        }
        let c = match self.ctx.pop() {
            None => {
                if self.ctx.paren_depth != 0 {
                    return State::Failed(str_to_string("unclosed left parenthesis"));
                }
                return State::End;
            },
            Some(ch) => ch,
        };
        if c == '#' {
            State::LineComment
        } else if c == '@' {
            State::Lexeme(T_AT)
        } else if c == ',' {
            State::Lexeme(T_COMMA)
        } else if c == '*' {
            State::Lexeme(T_MUL)
        } else if c == '/' {
            State::Lexeme(T_DIV)
        } else if c == '%' {
            State::Lexeme(T_MOD)
        } else if c == '+' {
            State::Lexeme(T_ADD)
        } else if c == '-' {
            State::Lexeme(T_SUB)
        } else if c == '^' {
            State::Lexeme(T_POW)
        } else if c == '=' {
            match self.ctx.peek() {
                Some('=') => {
                    self.ctx.pop();
                    State::Lexeme(T_EQLC)
                },
                // =~ (label matcher) MUST be in brace
                Some('~') => State::Failed(str_to_string("unexpected character after '=': '~'")),
                _ => State::Lexeme(T_EQL),
            }
        } else if c == '!' {
            match self.ctx.pop() {
                Some('=') => State::Lexeme(T_NEQ),
                Some(ch) => State::Failed(msg_char("unexpected character after '!': '", ch, "'")),
                None => State::Failed(str_to_string("'!' can not be at the end")),
            }
        } else if c == '<' {
            match self.ctx.peek() {
                Some('=') => {
                    self.ctx.pop();
                    State::Lexeme(T_LTE)
                },
                _ => State::Lexeme(T_LSS),
            }
        } else if c == '>' {
            match self.ctx.peek() {
                Some('=') => {
                    self.ctx.pop();
                    State::Lexeme(T_GTE)
                },
                _ => State::Lexeme(T_GTR),
            }
        } else if is_space(c) {
            let ghost b = self.ctx.start_idx as int;
            self.ignore_space();
            proof {
                lemma_run_end(self.ctx.chars@, b, Class::Space);
                lemma_blank_spaces(self.ctx.chars@, b, self.ctx.start_idx as int);
            }
            State::Start
        } else if is_digit(c) {
            State::NumberOrDuration
        } else if c == '.' {
            match self.ctx.peek() {
                Some(ch) => {
                    if is_digit(ch) {
                        State::NumberOrDuration
                    } else {
                        State::Failed(msg_char("unexpected character after '.': '", ch, "'"))
                    }
                },
                None => State::Failed(str_to_string("unexpected character: '.'")),
            }
        } else if is_alpha(c) || c == ':' {
            State::KeywordOrIdentifier
        } else if c == '\'' || c == '"' || c == '`' {
            State::String(c)
        } else if c == '(' {
            if self.ctx.paren_depth < usize::MAX {
                self.ctx.paren_depth = self.ctx.paren_depth + 1;
                return State::Lexeme(T_LEFT_PAREN);
            }
            State::Failed(str_to_string("too many left parentheses"))
        } else if c == ')' {
            if self.ctx.paren_depth == 0 {
                return State::Failed(str_to_string("unexpected right parenthesis ')'"));
            }
            self.ctx.paren_depth = self.ctx.paren_depth - 1;
            State::Lexeme(T_RIGHT_PAREN)
        } else if c == '{' {
            self.ctx.brace_open = true;
            State::Lexeme(T_LEFT_BRACE)
        } else if c == '}' {
            // the matched } has been consumed inside braces
            State::Failed(str_to_string("unexpected right brace '}'"))
        } else if c == '[' {
            self.ctx.got_colon = false;
            self.ctx.bracket_open = true;
            State::Lexeme(T_LEFT_BRACKET)
        } else if c == ']' {
            // the matched ] has been consumed inside brackets
            State::Failed(str_to_string("unexpected right bracket ']'"))
        } else {
            State::Failed(msg_text("unexpected character: ", char_debug_string(c)))
        }
    }

    /// The machine at rest between two lexemes: a lexeme already handed out.
    spec fn at_rest(&self) -> bool {
        &&& self.wf()
        &&& (self.state is Lexeme ==> self.ctx.start_idx == self.ctx.idx)
    }

    /// Moves the machine one step.
    fn shift(&mut self)
        requires
            old(self).at_rest(),
        ensures
            final(self).wf(),
            final(self).ctx.chars == old(self).ctx.chars,
            old(self).ctx.start_idx <= final(self).ctx.start_idx,
            !(old(self).state is End) ==> measure(final(self).state, final(self).ctx) < measure(
                old(self).state,
                old(self).ctx,
            ),
            old(self).state is End ==> final(self).state is Failed,
            final(self).state is Lexeme ==> final(self).ctx.start_idx < final(self).ctx.idx,
            !(old(self).state is Failed) && !(old(self).state is End) ==> blank_between(
                old(self).ctx.chars@,
                old(self).ctx.start_idx as int,
                final(self).ctx.start_idx as int,
            ),
            !(old(self).state is Failed) && final(self).state is End ==> final(self).ctx.start_idx
                == final(self).ctx.chars@.len(),
            step_is(lex_step(old(self).ctx.chars@, abs_state(old(self).state), cur(old(self).ctx)), final(self).state, final(self).ctx),
    {
        let ghost b = self.ctx.start_idx as int;
        let next = match self.state {
            State::Start => self.start(),
            State::End => State::Failed(str_to_string("End state can not shift forward.")),
            State::Lexeme(_) => State::Start,
            State::String(ch) => self.accept_string(ch),
            State::KeywordOrIdentifier => self.accept_keyword_or_identifier(),
            State::Identifier => self.accept_identifier(),
            State::NumberOrDuration => self.accept_number_or_duration(),
            State::InsideBrackets => self.inside_brackets(),
            State::InsideBraces => self.inside_braces(),
            State::LineComment => self.ignore_comment_line(),
            State::Escape(ch) => self.accept_escape(ch),
            State::Space => {
                self.ignore_space();
                proof {
                    lemma_run_end(self.ctx.chars@, b, Class::Space);
                    lemma_blank_spaces(self.ctx.chars@, b, self.ctx.start_idx as int);
                }
                State::Start
            },
            State::Failed(_) => State::End,
        };
        self.state = next;
    }

    /// The lexeme of the token just scanned; the next token starts after it.
    fn lexeme(&mut self, token_id: TokenId) -> (l: Lexeme)
        requires
            old(self).wf(),
            old(self).state == State::Lexeme(token_id),
            old(self).ctx.start_idx < old(self).ctx.idx,
        ensures
            final(self).at_rest(),
            final(self).state == old(self).state,
            final(self).ctx.chars == old(self).ctx.chars,
            final(self).ctx.idx == old(self).ctx.idx,
            l.tok_id == token_id,
            old(self).ctx.start <= l.start,
            l.start + l.len <= final(self).ctx.start,
            token_id != T_STRING ==> l.start == old(self).ctx.start && l.start + l.len
                == final(self).ctx.start,
            token_id == T_STRING ==> l.start == old(self).ctx.start + 1 && l.start + l.len + 1
                == final(self).ctx.start,
            lexeme_span(old(self).ctx.chars@, l, old(self).ctx.start_idx as int, old(self).ctx.idx as int),
            token_ends_at(token_id, old(self).ctx.chars@, old(self).ctx.idx as int),
            l == lexeme_of(old(self).ctx.chars@, token_id, old(self).ctx.start_idx as int, old(self).ctx.idx as int),
            cur(final(self).ctx) == (Cur { start: old(self).ctx.idx as int, ..cur(old(self).ctx) }),
    {
        let ghost s = self.ctx.chars@;
        let ghost i = self.ctx.start_idx as int;
        let ghost j = self.ctx.idx as int;
        let lexeme = self.ctx.lexeme(token_id);
        proof {
            if token_id == T_STRING {
                let text = s.subrange(i, j);
                assert(text[0] == s[i]);
                assert(s.take(i + 1).drop_last() =~= s.take(i));
                assert(s.take(j).drop_last() =~= s.take(j - 1));
                assert(text.last() == s[j - 1]);
            }
            assert(token_shape(token_id, s.subrange(i, j)));
        }
        self.ctx.ignore();
        lexeme
    }

    /// The next lexeme, or the error that ends the input, or `None` at the end.
    #[verifier::rlimit(50)]
    #[verifier::spinoff_prover]
    fn next(&mut self) -> (r: Option<Result<Lexeme, String>>)
        requires
            old(self).at_rest(),
            !(old(self).state is Failed),
            !(old(self).state is End),
        ensures
            r matches Some(Ok(l)) ==> lexeme_after_blank(
                old(self).ctx.chars@,
                l,
                old(self).ctx.start_idx as int,
                final(self).ctx.start_idx as int,
            ),
            r is None ==> blank_between(
                old(self).ctx.chars@,
                old(self).ctx.start_idx as int,
                old(self).ctx.chars@.len() as int,
            ),
            final(self).at_rest(),
            final(self).ctx.chars == old(self).ctx.chars,
            old(self).ctx.start <= final(self).ctx.start,
            r is None <==> final(self).state is End,
            r matches Some(Err(_)) <==> final(self).state is Failed,
            r matches Some(Ok(l)) ==> old(self).ctx.start <= l.start && l.start + l.len
                <= final(self).ctx.start,
            r matches Some(Ok(l)) ==> lexeme_fits(old(self).ctx.chars@, l),
            r matches Some(Ok(l)) ==> final(self).state == State::Lexeme(l.tok_id),
            r matches Some(Ok(_)) ==> old(self).ctx.start_idx < final(self).ctx.start_idx,
            old(self).ctx.start_idx <= final(self).ctx.start_idx,
            r matches Some(Err(e)) ==> final(self).state == State::Failed(e),
            ({
                let s = old(self).ctx.chars@;
                let before = lex_items(s, abs_state(old(self).state), cur(old(self).ctx));
                match r {
                    Some(Ok(l)) => before == seq![Ok::<Lexeme, Seq<char>>(l)] + lex_items(
                        s,
                        abs_state(final(self).state),
                        cur(final(self).ctx),
                    ),
                    Some(Err(e)) => before == seq![Err::<Lexeme, Seq<char>>(e@)],
                    None => before == Seq::<Result<Lexeme, Seq<char>>>::empty(),
                }
            }),
    {
        loop
            invariant
                lex_items(self.ctx.chars@, abs_state(self.state), cur(self.ctx)) == lex_items(
                    old(self).ctx.chars@,
                    abs_state(old(self).state),
                    cur(old(self).ctx),
                ),
                self.at_rest(),
                self.ctx.chars == old(self).ctx.chars,
                old(self).ctx.start_idx <= self.ctx.start_idx,
                old(self).ctx.start <= self.ctx.start,
                old(self).wf(),
                !(self.state is Failed),
                !(self.state is End),
                blank_between(self.ctx.chars@, old(self).ctx.start_idx as int, self.ctx.start_idx as int),
            decreases measure(self.state, self.ctx),
        {
            let ghost before = measure(self.state, self.ctx);
            proof {
                lemma_byte_len_mono(self.ctx.chars@, old(self).ctx.start_idx as int, self.ctx.start_idx as int);
            }
            let ghost mid = self.ctx.start_idx as int;
            let ghost st0 = abs_state(self.state);
            let ghost c0 = cur(self.ctx);
            proof {
                lemma_measure_eq(self.state, self.ctx);
            }
            self.shift();
            proof {
                let s = self.ctx.chars@;
                lemma_measure_eq(self.state, self.ctx);
                assert(lex_items(s, st0, c0) == ({
                    let (st2, c2) = lex_step(s, st0, c0);
                    if !(0 <= lex_measure(s, st2, c2) < lex_measure(s, st0, c0)) {
                        Seq::empty()
                    } else {
                        match st2 {
                            LexState::Lexeme(t) => seq![Ok(lexeme_of(s, t, c2.start, c2.idx))] + lex_items(
                                s,
                                st2,
                                Cur { start: c2.idx, ..c2 },
                            ),
                            LexState::Failed(m) => seq![Err(m)],
                            LexState::End => Seq::empty(),
                            _ => lex_items(s, st2, c2),
                        }
                    }
                }));
                lemma_byte_len_mono(self.ctx.chars@, old(self).ctx.start_idx as int, self.ctx.start_idx as int);
                lemma_blank_trans(self.ctx.chars@, old(self).ctx.start_idx as int, mid, self.ctx.start_idx as int);
            }
            match &self.state {
                State::Lexeme(t) => {
                    let ghost i = self.ctx.start_idx as int;
                    assert(blank_between(old(self).ctx.chars@, old(self).ctx.start_idx as int, i));
                    let l = self.lexeme(*t);
                    assert(lexeme_span(old(self).ctx.chars@, l, i, self.ctx.start_idx as int));
                    return Some(Ok(l));
                },
                State::Failed(info) => {
                    return Some(Err(info.clone()));
                },
                State::End => {
                    return None;
                },
                _ => {},
            }
        }
    }
}

/// Whether the lexemes lie in the input of `n` bytes, in order and without overlap.
pub open spec fn lexemes_in_order(ls: Seq<Lexeme>, n: nat) -> bool {
    &&& forall|k: int| 0 <= k < ls.len() ==> #[trigger] ls[k].start + ls[k].len <= n
    &&& forall|k: int, m: int|
        0 <= k < m < ls.len() ==> #[trigger] ls[k].start + ls[k].len <= #[trigger] ls[m].start
}

/// Whether the lexeme `l` covers the chars `s[i..j]`, a text of its token's shape, whose
/// byte offsets are the lexeme's (a string lexeme leaves out its quotes, one byte each).
pub open spec fn lexeme_span(s: Seq<char>, l: Lexeme, i: int, j: int) -> bool {
    let outer_start = if l.tok_id == T_STRING {
        l.start - 1
    } else {
        l.start as int
    };
    let outer_end = if l.tok_id == T_STRING {
        l.start + l.len + 1
    } else {
        l.start + l.len
    };
    &&& 0 <= i < j <= s.len()
    &&& byte_len(s.take(i)) == outer_start
    &&& byte_len(s.take(j)) == outer_end
    &&& token_shape(l.tok_id, s.subrange(i, j))
}

/// Whether the lexeme `l` covers, in the input `s`, a text of its token's shape.
pub open spec fn lexeme_fits(s: Seq<char>, l: Lexeme) -> bool {
    exists|i: int, j: int| #[trigger] lexeme_span(s, l, i, j)
}

/// Whether the lexeme `l` covers the chars of `s` from some `i` to `e`, with nothing but
/// white space and line comments in `s[a..i]`.
spec fn lexeme_after_blank(s: Seq<char>, l: Lexeme, a: int, e: int) -> bool {
    &&& exists|i: int| #[trigger] lexeme_span(s, l, i, e) && blank_between(s, a, i)
    &&& token_ends_at(l.tok_id, s, e)
}

/// Whether there is no line break in `s[p..k]`.
pub open spec fn no_line_break(s: Seq<char>, p: int, k: int) -> bool {
    forall|q: int| p <= q < k ==> #[trigger] s[q] != '\r' && s[q] != '\n'
}

/// Whether `s[k]` lies in a line comment that starts at `s[a]` or later: a `#` at some
/// `s[p]`, `a <= p <= k`, and no line break in `s[p..k]`.
pub open spec fn in_comment(s: Seq<char>, a: int, k: int) -> bool {
    exists|p: int| a <= p <= k && s[p] == '#' && #[trigger] no_line_break(s, p, k)
}

/// Whether `s[a..b]` holds nothing but white space and line comments.
pub open spec fn blank_between(s: Seq<char>, a: int, b: int) -> bool {
    &&& 0 <= a <= b <= s.len()
    &&& forall|k: int| a <= k < b ==> spec_is_space(#[trigger] s[k]) || in_comment(s, a, k)
}

/// The end of the last of the char spans `spans`, or 0 if there is none.
pub open spec fn span_end(spans: Seq<(int, int)>) -> int {
    if spans.len() == 0 {
        0
    } else {
        spans.last().1
    }
}

/// Whether the lexemes `ls` lie, in order, at the char spans `spans` of `s`, with nothing
/// but white space and line comments before each of them.
pub open spec fn lexemes_cover(s: Seq<char>, ls: Seq<Lexeme>, spans: Seq<(int, int)>) -> bool {
    &&& spans.len() == ls.len()
    &&& forall|k: int|
        0 <= k < ls.len() ==> #[trigger] lexeme_span(s, ls[k], spans[k].0, spans[k].1)
    &&& forall|k: int|
        #![trigger spans[k]]
        0 <= k < ls.len() ==> blank_between(s, span_end(spans.take(k)), spans[k].0)
            && token_ends_at(ls[k].tok_id, s, spans[k].1)
}

proof fn lemma_blank_trans(s: Seq<char>, a: int, b: int, c: int)
    requires
        blank_between(s, a, b),
        blank_between(s, b, c),
    ensures
        blank_between(s, a, c),
{
    assert forall|k: int| a <= k < c implies spec_is_space(#[trigger] s[k]) || in_comment(
        s,
        a,
        k,
    ) by {
        if k >= b && !spec_is_space(s[k]) {
            assert(in_comment(s, b, k));
            let p = choose|p: int| b <= p <= k && s[p] == '#' && #[trigger] no_line_break(s, p, k);
            assert(a <= p <= k && s[p] == '#' && no_line_break(s, p, k));
        }
    }
}

proof fn lemma_blank_spaces(s: Seq<char>, a: int, b: int)
    requires
        0 <= a <= b <= s.len(),
        forall|k: int| a <= k < b ==> spec_is_space(#[trigger] s[k]),
    ensures
        blank_between(s, a, b),
{
}

proof fn lemma_blank_comment(s: Seq<char>, b: int)
    requires
        0 <= b < s.len(),
        s[b] == '#',
    ensures
        blank_between(s, b, comment_end(s, b + 1)),
{
    lemma_comment_end(s, b + 1);
    let e = comment_end(s, b + 1);
    assert forall|k: int| b <= k < e implies spec_is_space(#[trigger] s[k]) || in_comment(
        s,
        b,
        k,
    ) by {
        assert forall|q: int| b <= q < k implies #[trigger] s[q] != '\r' && s[q] != '\n' by {
            if q > b {
                assert(b + 1 <= q < e - 1);
            }
        }
        assert(no_line_break(s, b, k));
    }
}

/// The lexemes among the items `r`, all of which but the last are lexemes.
pub open spec fn ok_lexemes(r: Seq<Result<Lexeme, String>>) -> Seq<Lexeme> {
    let n = if r.len() > 0 && r.last() is Err {
        (r.len() - 1) as nat
    } else {
        r.len()
    };
    Seq::new(n, |k: int| r[k]->Ok_0)
}

/// The lexemes of `input`, in order; the lexing stops at the first error, which is then
/// the last item. Before each lexeme, and after the last one where no error came, the
/// input holds nothing but white space and line comments; no name, number or duration
/// could have been taken longer.
#[verifier::rlimit(50)]
#[verifier::spinoff_prover]
pub fn lexemes(input: &str) -> (r: Vec<Result<Lexeme, String>>)
    requires
        4 * input@.len() <= usize::MAX,
    ensures
        forall|k: int| 0 <= k < r@.len() - 1 ==> r@[k] is Ok,
        lexemes_in_order(
            ok_lexemes(r@),
            byte_len(input@),
        ),
        forall|k: int|
            0 <= k < ok_lexemes(r@).len() ==> lexeme_fits(input@, #[trigger] ok_lexemes(r@)[k]),
        exists|spans: Seq<(int, int)>|
            #[trigger] lexemes_cover(input@, ok_lexemes(r@), spans) && (!(r@.len() > 0
                && r@.last() is Err) ==> blank_between(input@, span_end(spans), input@.len() as int)),
        r@.map_values(|x: Result<Lexeme, String>| item_view(x)) == spec_lex(input@),
{
    let mut lexer = Lexer::new(input);
    let mut out: Vec<Result<Lexeme, String>> = Vec::new();
    let ghost mut spans: Seq<(int, int)> = Seq::empty();
    assert(out@.map_values(|x: Result<Lexeme, String>| item_view(x)) + spec_lex(input@) =~= spec_lex(input@));
    assert(input@.take(input@.len() as int) =~= input@);
    loop
        invariant_except_break
            forall|k: int| 0 <= k < out@.len() ==> out@[k] is Ok,
            lexemes_in_order(Seq::new(out@.len(), |k: int| out@[k]->Ok_0), lexer.ctx.start as nat),
            lexemes_cover(input@, Seq::new(out@.len(), |k: int| out@[k]->Ok_0), spans),
            lexer.ctx.start_idx == span_end(spans),
            !(lexer.state is Failed),
            !(lexer.state is End),
            out@.map_values(|x: Result<Lexeme, String>| item_view(x)) + lex_items(
                input@,
                abs_state(lexer.state),
                cur(lexer.ctx),
            ) == spec_lex(input@),
        invariant
            forall|k: int| 0 <= k < out@.len() && out@[k] is Ok ==> lexeme_fits(input@, #[trigger] out@[k]->Ok_0),
            lexer.at_rest(),
            lexer.ctx.chars@ == input@,
            lexer.ctx.start <= byte_len(input@),
        ensures
            forall|k: int| 0 <= k < out@.len() - 1 ==> out@[k] is Ok,
            lexemes_in_order(
                ok_lexemes(out@),
                byte_len(input@),
            ),
            forall|k: int|
                0 <= k < ok_lexemes(out@).len() ==> lexeme_fits(input@, #[trigger] ok_lexemes(out@)[k]),
            lexemes_cover(input@, ok_lexemes(out@), spans),
            !(out@.len() > 0 && out@.last() is Err) ==> blank_between(input@, span_end(spans), input@.len() as int),
            out@.map_values(|x: Result<Lexeme, String>| item_view(x)) == spec_lex(input@),
        decreases input@.len() - lexer.ctx.start_idx,
    {
        let ghost old_out = out@;
        let ghost old_start = lexer.ctx.start;
        let ghost old_oks = Seq::new(old_out.len(), |k: int| old_out[k]->Ok_0);
        let ghost old_views = old_out.map_values(|x: Result<Lexeme, String>| item_view(x));
        let item = lexer.next();
        proof {
            assert(input@.take(input@.len() as int) =~= input@);
            lemma_byte_len_mono(input@, lexer.ctx.start_idx as int, input@.len() as int);
        }
        match item {
            Some(Ok(l)) => {
                out.push(Ok(l));
                proof {
                    let i = choose|i: int|
                        #[trigger] lexeme_span(input@, l, i, lexer.ctx.start_idx as int)
                            && blank_between(input@, span_end(spans), i);
                    assert(lexeme_span(input@, l, i, lexer.ctx.start_idx as int));
                    assert(blank_between(input@, span_end(spans), i));
                    let old_spans = spans;
                    spans = spans.push((i, lexer.ctx.start_idx as int));
                    assert(Seq::new(out@.len(), |k: int| out@[k]->Ok_0) =~= old_oks.push(l));
                    assert(spans.take(old_spans.len() as int) =~= old_spans);
                    assert forall|k: int| 0 <= k < old_spans.len() implies spans.take(k)
                        =~= old_spans.take(k) by {}
                    assert(lexemes_cover(input@, old_oks.push(l), spans));
                    assert(out@.map_values(|x: Result<Lexeme, String>| item_view(x)) =~= old_views
                        + seq![Ok::<Lexeme, Seq<char>>(l)]);
                }
            },
            Some(Err(e)) => {
                let ghost ev = e@;
                out.push(Err(e));
                assert(ok_lexemes(out@) =~= old_oks);
                assert(out@.map_values(|x: Result<Lexeme, String>| item_view(x)) =~= old_views
                    + seq![Err::<Lexeme, Seq<char>>(ev)]);
                break;
            },
            None => {
                assert(ok_lexemes(out@) =~= old_oks);
                assert(old_views + Seq::<Result<Lexeme, Seq<char>>>::empty() =~= old_views);
                break;
            },
        }
    }
    out
}

/// The error for an input without any lexeme.
pub open spec fn no_expression_msg() -> Seq<char> {
    "no expression found in input"@
}

/// The outcome of lexing, given its items `items`: the error if the last item is one, else
/// the lexemes, or, for an input without any lexeme, an error that says so.
pub fn collect_lexemes(items: Vec<Result<Lexeme, String>>) -> (r: Result<Vec<Lexeme>, String>)
    requires
        forall|k: int| 0 <= k < items@.len() - 1 ==> items@[k] is Ok,
    ensures
        items@.len() == 0 ==> (r matches Err(e) && e@ == no_expression_msg()),
        items@.len() > 0 && items@.last() is Err ==> r == Err::<Vec<Lexeme>, String>(
            items@.last()->Err_0,
        ),
        items@.len() > 0 && items@.last() is Ok ==> (r matches Ok(ls) && ls@ == ok_lexemes(items@)),
{
    let n = items.len();
    if n == 0 {
        return Err(str_to_string("no expression found in input"));
    }
    match &items[n - 1] {
        Err(info) => {
            return Err(info.clone());
        },
        Ok(_) => {},
    }
    let mut ls: Vec<Lexeme> = Vec::new();
    let mut i: usize = 0;
    while i < n
        invariant
            i <= n == items@.len(),
            items@.last() is Ok,
            forall|k: int| 0 <= k < items@.len() - 1 ==> items@[k] is Ok,
            ls@ == Seq::new(i as nat, |k: int| items@[k]->Ok_0),
        decreases n - i,
    {
        match &items[i] {
            Ok(l) => {
                ls.push(*l);
            },
            Err(_) => {
                assert(false);
            },
        }
        i = i + 1;
        assert(ls@ =~= Seq::new(i as nat, |k: int| items@[k]->Ok_0));
    }
    assert(ls@ =~= ok_lexemes(items@));
    Ok(ls)
}

/// Lexes `input`: its lexemes, or the first error, or an error for an input without any
/// lexeme (see `spec_tokenize`). The lexemes cover the input but for white space and line
/// comments.
pub fn tokenize(input: &str) -> (r: Result<Vec<Lexeme>, String>)
    requires
        4 * input@.len() <= usize::MAX,
    ensures
        match r {
            Ok(ls) => spec_tokenize(input@) == Ok::<Seq<Lexeme>, Seq<char>>(ls@),
            Err(e) => spec_tokenize(input@) == Err::<Seq<Lexeme>, Seq<char>>(e@),
        },
        r matches Ok(ls) ==> ls@.len() > 0 && lexemes_in_order(ls@, byte_len(input@)),
        r matches Ok(ls) ==> forall|k: int| 0 <= k < ls@.len() ==> lexeme_fits(input@, #[trigger] ls@[k]),
        r matches Ok(ls) ==> exists|spans: Seq<(int, int)>|
            #[trigger] lexemes_cover(input@, ls@, spans) && blank_between(
                input@,
                span_end(spans),
                input@.len() as int,
            ),
{
    let items = lexemes(input);
    let ghost spans = choose|spans: Seq<(int, int)>|
        #[trigger] lexemes_cover(input@, ok_lexemes(items@), spans) && (!(items@.len() > 0
            && items@.last() is Err) ==> blank_between(input@, span_end(spans), input@.len() as int));
    let ghost iv = items@;
    let r = collect_lexemes(items);
    proof {
        let views = iv.map_values(|x: Result<Lexeme, String>| item_view(x));
        assert(views.len() == iv.len());
        if r is Ok {
            assert(lexemes_cover(input@, ok_lexemes(iv), spans));
            assert(views.last() == item_view(iv.last()));
            assert(ok_lexemes(iv) =~= views.map_values(|x: Result<Lexeme, Seq<char>>| x->Ok_0));
        } else if iv.len() > 0 {
            assert(views.last() == item_view(iv.last()));
        }
    }
    r
}

/// Whether `c` may follow a backslash in a string quoted by `q`: one of the escape letters
/// `a`, `b`, `f`, `n`, `r`, `t`, `v`, a backslash, an octal digit, `x`, `u`, `U`, or the
/// quote itself.
pub open spec fn string_escape_char(c: char, q: char) -> bool {
    c == 'a' || c == 'b' || c == 'f' || c == 'n' || c == 'r' || c == 't' || c == 'v' || c == '\\'
        || ('0' <= c && c <= '7') || c == 'x' || c == 'u' || c == 'U' || c == q
}

/// Whether `s[i..j]` can stand between two quotes `q`: no bare `q`, and each backslash
/// followed by an escape char.
pub open spec fn string_body(s: Seq<char>, i: int, j: int, q: char) -> bool
    decreases j - i,
{
    if i >= j {
        i == j
    } else if s[i] == '\\' {
        i + 1 < j && string_escape_char(s[i + 1], q) && string_body(s, i + 2, j, q)
    } else if s[i] == q {
        false
    } else {
        string_body(s, i + 1, j, q)
    }
}

/// In a string body followed by a quote or a backslash at `j`, the first backslash or
/// quote from `i` on is the one at `j`, or a backslash that starts an escape after which
/// the body goes on.
proof fn lemma_string_end_in_body(s: Seq<char>, i: int, j: int, q: char)
    requires
        0 <= i <= j < s.len(),
        s[j] == q || s[j] == '\\',
        q != '\\',
        string_body(s, i, j, q),
    ensures
        string_end(s, i, q) == j || (i <= string_end(s, i, q) && string_end(s, i, q) + 1 < j
            && s[string_end(s, i, q)] == '\\' && string_escape_char(s[string_end(s, i, q) + 1], q)
            && string_body(s, string_end(s, i, q) + 2, j, q)),
    decreases j - i,
{
    if i < j && s[i] != '\\' {
        lemma_string_end_in_body(s, i + 1, j, q);
    }
}

/// Scanning the rest of a string from `c.idx`, whose body runs to the closing quote at the
/// end of `s`, hands out the string's lexeme and then nothing but what follows the string.
proof fn lemma_string_rest_lexes(s: Seq<char>, q: char, c: Cur)
    requires
        1 <= c.idx <= s.len() - 1,
        s.last() == q,
        is_string_symbol(q),
        string_body(s, c.idx, s.len() - 1, q),
    ensures
        lex_items(s, LexState::Str(q), c) == seq![Ok::<Lexeme, Seq<char>>(
            lexeme_of(s, T_STRING, c.start, s.len() as int),
        )] + lex_items(
            s,
            LexState::Lexeme(T_STRING),
            Cur { idx: s.len() as int, start: s.len() as int, ..c },
        ),
    decreases s.len() - c.idx,
{
    let n = s.len() as int;
    let i = c.idx;
    lemma_string_end_in_body(s, i, n - 1, q);
    let e = string_end(s, i, q);
    if e == n - 1 {
        assert(lex_step(s, LexState::Str(q), c) == (LexState::Lexeme(T_STRING), at_idx(c, n)));
    } else {
        let c1 = at_idx(c, e + 1);
        let c2 = at_idx(c, e + 2);
        assert(lex_step(s, LexState::Str(q), c) == (LexState::Escape(q), c1));
        assert(lex_step(s, LexState::Escape(q), c1) == (LexState::Str(q), c2));
        assert(lex_items(s, LexState::Str(q), c) == lex_items(s, LexState::Escape(q), c1));
        assert(lex_items(s, LexState::Escape(q), c1) == lex_items(s, LexState::Str(q), c2));
        lemma_string_rest_lexes(s, q, c2);
        assert(Cur { idx: n, start: n, ..c2 } == Cur { idx: n, start: n, ..c });
    }
}

/// A quoted string whose body holds no bare quote and uses only the escapes that
/// `string_escape_char` allows lexes without error to one string lexeme, whose span is
/// the body: from byte 1 to the closing quote.
pub proof fn lemma_quoted_string_lexes(s: Seq<char>)
    requires
        s.len() >= 2,
        is_string_symbol(s[0]),
        s.last() == s[0],
        string_body(s, 1, s.len() - 1, s[0]),
        4 * s.len() <= usize::MAX,
    ensures
        spec_tokenize(s) matches Ok(ls) && ls.len() == 1 && ls[0].tok_id == T_STRING
            && ls[0].start == 1 && ls[0].len == byte_len(s) - 2,
{
    let n = s.len() as int;
    let q = s[0];
    let c0 = Cur { idx: 0, start: 0, paren: 0, brace: false, bracket: false, colon: false };
    let c1 = at_idx(c0, 1);
    let cn = Cur { idx: n, start: n, ..c1 };
    assert(start_step(s, c0) == (LexState::Str(q), c1));
    assert(lex_items(s, LexState::Start, c0) == lex_items(s, LexState::Str(q), c1));
    lemma_string_rest_lexes(s, q, c1);
    assert(lex_step(s, LexState::Lexeme(T_STRING), cn) == (LexState::Start, cn));
    assert(lex_step(s, LexState::Start, cn) == (LexState::End, cn));
    assert(lex_items(s, LexState::Start, cn) =~= Seq::<Result<Lexeme, Seq<char>>>::empty());
    assert(lex_items(s, LexState::Lexeme(T_STRING), cn) =~= Seq::<Result<Lexeme, Seq<char>>>::empty());
    let l = lexeme_of(s, T_STRING, 0, n);
    let items = spec_lex(s);
    assert(items =~= seq![Ok::<Lexeme, Seq<char>>(l)]);
    assert(s.take(0) =~= Seq::<char>::empty());
    assert(s.take(n) =~= s);
    lemma_byte_len_mono(s, 0, n);
    lemma_byte_len_bound(s);
    assert(l.start == 1 && l.len == byte_len(s) - 2);
    assert(items.map_values(|x: Result<Lexeme, Seq<char>>| x->Ok_0) =~= seq![l]);
}

/// Scanning the rest of a string from `c.idx`, whose body runs to a backslash at `p`
/// followed by a char that is no escape char, ends in the error for that escape.
proof fn lemma_string_rest_fails(s: Seq<char>, q: char, c: Cur, p: int)
    requires
        1 <= c.idx <= p,
        p + 1 < s.len(),
        s[p] == '\\',
        !string_escape_char(s[p + 1], q),
        is_string_symbol(q),
        string_body(s, c.idx, p, q),
    ensures
        lex_items(s, LexState::Str(q), c) == seq![Err::<Lexeme, Seq<char>>(
            "unknown escape sequence '"@ + seq![s[p + 1]] + "'"@,
        )],
    decreases p - c.idx,
{
    let i = c.idx;
    lemma_string_end_in_body(s, i, p, q);
    let e = string_end(s, i, q);
    let c1 = at_idx(c, e + 1);
    assert(lex_step(s, LexState::Str(q), c) == (LexState::Escape(q), c1));
    assert(lex_items(s, LexState::Str(q), c) == lex_items(s, LexState::Escape(q), c1));
    if e == p {
        assert(!is_escape_symbol(s[p + 1]) && s[p + 1] != q);
    } else {
        let c2 = at_idx(c, e + 2);
        assert(lex_step(s, LexState::Escape(q), c1) == (LexState::Str(q), c2));
        assert(lex_items(s, LexState::Escape(q), c1) == lex_items(s, LexState::Str(q), c2));
        lemma_string_rest_fails(s, q, c2, p);
    }
}

/// A string whose body, up to a backslash, is well formed, but whose backslash is
/// followed by a char that `string_escape_char` does not allow, fails to lex with the
/// error for that escape.
pub proof fn lemma_unknown_escape_fails(s: Seq<char>, p: int)
    requires
        1 <= p,
        p + 1 < s.len(),
        is_string_symbol(s[0]),
        s[p] == '\\',
        !string_escape_char(s[p + 1], s[0]),
        string_body(s, 1, p, s[0]),
    ensures
        spec_tokenize(s) == Err::<Seq<Lexeme>, Seq<char>>(
            "unknown escape sequence '"@ + seq![s[p + 1]] + "'"@,
        ),
{
    let q = s[0];
    let c0 = Cur { idx: 0, start: 0, paren: 0, brace: false, bracket: false, colon: false };
    let c1 = at_idx(c0, 1);
    assert(start_step(s, c0) == (LexState::Str(q), c1));
    assert(lex_items(s, LexState::Start, c0) == lex_items(s, LexState::Str(q), c1));
    lemma_string_rest_fails(s, q, c1, p);
}

/// After a last lexeme that ends the input, with nothing left open, the lexer hands out
/// nothing more.
proof fn lemma_lexeme_at_end(s: Seq<char>, t: TokenId, c: Cur)
    requires
        c.idx == s.len(),
        c.start == s.len(),
        c.paren == 0,
        !c.brace,
        !c.bracket,
    ensures
        lex_items(s, LexState::Lexeme(t), c) == Seq::<Result<Lexeme, Seq<char>>>::empty(),
{
    assert(lex_step(s, LexState::Lexeme(t), c) == (LexState::Start, c));
    assert(lex_step(s, LexState::Start, c) == (LexState::End, c));
    assert(lex_items(s, LexState::Start, c) =~= Seq::<Result<Lexeme, Seq<char>>>::empty());
}

/// The outcome of lexing when the only lexeme is the token `t` over the whole input.
proof fn lemma_single_lexeme_outcome(s: Seq<char>, t: TokenId)
    requires
        spec_lex(s) == seq![Ok::<Lexeme, Seq<char>>(lexeme_of(s, t, 0, s.len() as int))],
        s.len() >= 1,
        t != T_STRING,
        4 * s.len() <= usize::MAX,
    ensures
        spec_tokenize(s) matches Ok(ls) && ls.len() == 1 && ls[0].tok_id == t && ls[0].start == 0
            && ls[0].len == byte_len(s),
{
    let l = lexeme_of(s, t, 0, s.len() as int);
    assert(s.take(0) =~= Seq::<char>::empty());
    assert(s.take(s.len() as int) =~= s);
    lemma_byte_len_bound(s);
    assert(l.start == 0 && l.len == byte_len(s));
    assert(spec_lex(s).map_values(|x: Result<Lexeme, Seq<char>>| x->Ok_0) =~= seq![l]);
}

/// A name alone (a letter or `_`, then letters, digits and `_`) that is no keyword in any
/// case lexes to one identifier lexeme over the whole input.
pub proof fn lemma_identifier_lexes(s: Seq<char>)
    requires
        s.len() >= 1,
        spec_is_alpha(s[0]),
        forall|k: int| 0 <= k < s.len() ==> spec_is_alpha_numeric(#[trigger] s[k]),
        spec_keyword_token(spec_ascii_lowercase(s)) is None,
        4 * s.len() <= usize::MAX,
    ensures
        spec_tokenize(s) matches Ok(ls) && ls.len() == 1 && ls[0].tok_id == T_IDENTIFIER
            && ls[0].start == 0 && ls[0].len == byte_len(s),
{
    let n = s.len() as int;
    let c0 = Cur { idx: 0, start: 0, paren: 0, brace: false, bracket: false, colon: false };
    let c1 = at_idx(c0, 1);
    assert(start_step(s, c0) == (LexState::KeywordOrIdentifier, c1));
    lemma_run_end(s, 1, Class::MetricChar);
    let e = run_end(s, 1, Class::MetricChar);
    if e < n {
        assert(in_class(Class::MetricChar, s[e]));
    }
    assert(e == n);
    assert(s.subrange(0, n) =~= s);
    assert(!s.contains(':')) by {
        if s.contains(':') {
            let i = choose|i: int| 0 <= i < s.len() && s[i] == ':';
            assert(spec_is_alpha_numeric(s[i]));
        }
    }
    let cn = at_idx(c1, n);
    assert(keyword_step(s, c1) == (LexState::Lexeme(T_IDENTIFIER), cn));
    lemma_lexeme_at_end(s, T_IDENTIFIER, Cur { start: n, ..cn });
    assert(lex_items(s, LexState::KeywordOrIdentifier, c1) =~= seq![
        Ok::<Lexeme, Seq<char>>(lexeme_of(s, T_IDENTIFIER, 0, n)),
    ]);
    assert(spec_lex(s) == lex_items(s, LexState::KeywordOrIdentifier, c1));
    lemma_single_lexeme_outcome(s, T_IDENTIFIER);
}

/// A run of decimal digits alone lexes to one number lexeme over the whole input.
pub proof fn lemma_digits_lex_as_number(s: Seq<char>)
    requires
        s.len() >= 1,
        forall|k: int| 0 <= k < s.len() ==> spec_is_digit(#[trigger] s[k]),
        4 * s.len() <= usize::MAX,
    ensures
        spec_tokenize(s) matches Ok(ls) && ls.len() == 1 && ls[0].tok_id == T_NUMBER && ls[0].start
            == 0 && ls[0].len == byte_len(s),
{
    let n = s.len() as int;
    let c0 = Cur { idx: 0, start: 0, paren: 0, brace: false, bracket: false, colon: false };
    let c1 = at_idx(c0, 1);
    assert(start_step(s, c0) == (LexState::NumberOrDuration, c1));
    let j0 = if s[0] == '0' { 1int } else { 0int };
    if n > 1 {
        assert(!in_class(Class::HexMarker, s[1])) by {
            assert(spec_is_digit(s[1]));
        }
    }
    lemma_run_end(s, j0, Class::Digit);
    let e = run_end(s, j0, Class::Digit);
    if e < n {
        assert(in_class(Class::Digit, s[e]));
    }
    assert(e == n);
    assert(scan_number_spec(s, 0) == (n, true));
    let cn = at_idx(c1, n);
    assert(number_step(s, c1) == (LexState::Lexeme(T_NUMBER), cn));
    lemma_lexeme_at_end(s, T_NUMBER, Cur { start: n, ..cn });
    assert(lex_items(s, LexState::NumberOrDuration, c1) =~= seq![
        Ok::<Lexeme, Seq<char>>(lexeme_of(s, T_NUMBER, 0, n)),
    ]);
    assert(spec_lex(s) == lex_items(s, LexState::NumberOrDuration, c1));
    lemma_single_lexeme_outcome(s, T_NUMBER);
}

} // verus!
