//! The token ids of PromQL and what is known of them.
use vstd::prelude::*;

use crate::util::text::{str_to_chars, str_to_string};

verus! {

/// The id of a token kind.
pub type TokenId = u8;
pub const T_EQL: TokenId = 0;
pub const T_BLANK: TokenId = 1;
pub const T_COLON: TokenId = 2;
pub const T_COMMA: TokenId = 3;
pub const T_COMMENT: TokenId = 4;
pub const T_DURATION: TokenId = 5;
pub const T_EOF: TokenId = 6;
pub const T_ERROR: TokenId = 7;
pub const T_IDENTIFIER: TokenId = 8;
pub const T_LEFT_BRACE: TokenId = 9;
pub const T_LEFT_BRACKET: TokenId = 10;
pub const T_LEFT_PAREN: TokenId = 11;
pub const T_OPEN_HIST: TokenId = 12;
pub const T_CLOSE_HIST: TokenId = 13;
pub const T_METRIC_IDENTIFIER: TokenId = 14;
pub const T_NUMBER: TokenId = 15;
pub const T_RIGHT_BRACE: TokenId = 16;
pub const T_RIGHT_BRACKET: TokenId = 17;
pub const T_RIGHT_PAREN: TokenId = 18;
pub const T_SEMICOLON: TokenId = 19;
pub const T_SPACE: TokenId = 20;
pub const T_STRING: TokenId = 21;
pub const T_TIMES: TokenId = 22;
pub const T_OPERATORS_START: TokenId = 23;
pub const T_ADD: TokenId = 24;
pub const T_DIV: TokenId = 25;
pub const T_EQLC: TokenId = 26;
pub const T_EQL_REGEX: TokenId = 27;
pub const T_GTE: TokenId = 28;
pub const T_GTR: TokenId = 29;
pub const T_LAND: TokenId = 30;
pub const T_LOR: TokenId = 31;
pub const T_LSS: TokenId = 32;
pub const T_LTE: TokenId = 33;
pub const T_LUNLESS: TokenId = 34;
pub const T_MOD: TokenId = 35;
pub const T_MUL: TokenId = 36;
pub const T_NEQ: TokenId = 37;
pub const T_NEQ_REGEX: TokenId = 38;
pub const T_POW: TokenId = 39;
pub const T_SUB: TokenId = 40;
pub const T_AT: TokenId = 41;
pub const T_ATAN2: TokenId = 42;
pub const T_OPERATORS_END: TokenId = 43;
pub const T_AGGREGATORS_START: TokenId = 44;
pub const T_AVG: TokenId = 45;
pub const T_BOTTOMK: TokenId = 46;
pub const T_COUNT: TokenId = 47;
pub const T_COUNT_VALUES: TokenId = 48;
pub const T_GROUP: TokenId = 49;
pub const T_MAX: TokenId = 50;
pub const T_MIN: TokenId = 51;
pub const T_QUANTILE: TokenId = 52;
pub const T_STDDEV: TokenId = 53;
pub const T_STDVAR: TokenId = 54;
pub const T_SUM: TokenId = 55;
pub const T_TOPK: TokenId = 56;
pub const T_LIMITK: TokenId = 57;
pub const T_LIMIT_RATIO: TokenId = 58;
pub const T_AGGREGATORS_END: TokenId = 59;
pub const T_KEYWORDS_START: TokenId = 60;
pub const T_BOOL: TokenId = 61;
pub const T_BY: TokenId = 62;
pub const T_GROUP_LEFT: TokenId = 63;
pub const T_GROUP_RIGHT: TokenId = 64;
pub const T_IGNORING: TokenId = 65;
pub const T_OFFSET: TokenId = 66;
pub const T_SMOOTHED: TokenId = 67;
pub const T_ANCHORED: TokenId = 68;
pub const T_ON: TokenId = 69;
pub const T_WITHOUT: TokenId = 70;
pub const T_KEYWORDS_END: TokenId = 71;
pub const T_PREPROCESSOR_START: TokenId = 72;
pub const T_START: TokenId = 73;
pub const T_END: TokenId = 74;
pub const T_STEP: TokenId = 75;
pub const T_PREPROCESSOR_END: TokenId = 76;
pub const T_STARTSYMBOLS_START: TokenId = 77;
pub const T_START_METRIC: TokenId = 78;
pub const T_START_SERIES_DESCRIPTION: TokenId = 79;
pub const T_START_EXPRESSION: TokenId = 80;
pub const T_START_METRIC_SELECTOR: TokenId = 81;
pub const T_STARTSYMBOLS_END: TokenId = 82;

/// The text that `token_display` gives for the token id `id`.
pub open spec fn spec_token_display(id: TokenId) -> Seq<char> {
    if id == T_EQL {
        "="@
    } else if id == T_BLANK {
        "_"@
    } else if id == T_COLON {
        ":"@
    } else if id == T_COMMA {
        ","@
    } else if id == T_COMMENT {
        "#"@
    } else if id == T_DURATION {
        "[du]"@
    } else if id == T_EOF {
        "<eof>"@
    } else if id == T_ERROR {
        "{Err}"@
    } else if id == T_IDENTIFIER {
        "{ID}"@
    } else if id == T_LEFT_BRACE {
        "{"@
    } else if id == T_LEFT_BRACKET {
        "["@
    } else if id == T_LEFT_PAREN {
        "("@
    } else if id == T_OPEN_HIST {
        "{{"@
    } else if id == T_CLOSE_HIST {
        "}}"@
    } else if id == T_METRIC_IDENTIFIER {
        "{Metric_ID}"@
    } else if id == T_NUMBER {
        "{Num}"@
    } else if id == T_RIGHT_BRACE {
        "}"@
    } else if id == T_RIGHT_BRACKET {
        "]"@
    } else if id == T_RIGHT_PAREN {
        ")"@
    } else if id == T_SEMICOLON {
        ","@
    } else if id == T_SPACE {
        "<space>"@
    } else if id == T_STRING {
        "{Str}"@
    } else if id == T_TIMES {
        "x"@
    } else if id == T_OPERATORS_START {
        "operators_start"@
    } else if id == T_ADD {
        "+"@
    } else if id == T_DIV {
        "/"@
    } else if id == T_EQLC {
        "=="@
    } else if id == T_EQL_REGEX {
        "=~"@
    } else if id == T_GTE {
        ">="@
    } else if id == T_GTR {
        ">"@
    } else if id == T_LAND {
        "and"@
    } else if id == T_LOR {
        "or"@
    } else if id == T_LSS {
        "<"@
    } else if id == T_LTE {
        "<="@
    } else if id == T_LUNLESS {
        "unless"@
    } else if id == T_MOD {
        "%"@
    } else if id == T_MUL {
        "*"@
    } else if id == T_NEQ {
        "!="@
    } else if id == T_NEQ_REGEX {
        "!~"@
    } else if id == T_POW {
        "^"@
    } else if id == T_SUB {
        "-"@
    } else if id == T_AT {
        "@"@
    } else if id == T_ATAN2 {
        "atan2"@
    } else if id == T_OPERATORS_END {
        "operators_end"@
    } else if id == T_AGGREGATORS_START {
        "aggregators_start"@
    } else if id == T_AVG {
        "avg"@
    } else if id == T_BOTTOMK {
        "bottomk"@
    } else if id == T_COUNT {
        "count"@
    } else if id == T_COUNT_VALUES {
        "count_values"@
    } else if id == T_GROUP {
        "group"@
    } else if id == T_MAX {
        "max"@
    } else if id == T_MIN {
        "min"@
    } else if id == T_QUANTILE {
        "quantile"@
    } else if id == T_STDDEV {
        "stddev"@
    } else if id == T_STDVAR {
        "stdvar"@
    } else if id == T_SUM {
        "sum"@
    } else if id == T_TOPK {
        "topk"@
    } else if id == T_LIMITK {
        "limitk"@
    } else if id == T_LIMIT_RATIO {
        "limit_ratio"@
    } else if id == T_AGGREGATORS_END {
        "aggregators_end"@
    } else if id == T_KEYWORDS_START {
        "keywords_start"@
    } else if id == T_BOOL {
        "bool"@
    } else if id == T_BY {
        "by"@
    } else if id == T_GROUP_LEFT {
        "group_left"@
    } else if id == T_GROUP_RIGHT {
        "group_right"@
    } else if id == T_IGNORING {
        "ignoring"@
    } else if id == T_OFFSET {
        "offset"@
    } else if id == T_SMOOTHED {
        "smoothed"@
    } else if id == T_ANCHORED {
        "anchored"@
    } else if id == T_ON {
        "on"@
    } else if id == T_WITHOUT {
        "without"@
    } else if id == T_KEYWORDS_END {
        "keywords_end"@
    } else if id == T_PREPROCESSOR_START {
        "preprocessor_start"@
    } else if id == T_START {
        "start"@
    } else if id == T_END {
        "end"@
    } else if id == T_STEP {
        "step"@
    } else if id == T_PREPROCESSOR_END {
        "preprocessors_end"@
    } else if id == T_STARTSYMBOLS_START {
        "not used"@
    } else if id == T_START_METRIC {
        "not used"@
    } else if id == T_START_SERIES_DESCRIPTION {
        "not used"@
    } else if id == T_START_EXPRESSION {
        "not used"@
    } else if id == T_START_METRIC_SELECTOR {
        "not used"@
    } else if id == T_STARTSYMBOLS_END {
        "not used"@
    } else {
        "unknown token"@
    }
}

/// A short text for the token id `id`, for messages.
pub fn token_display(id: TokenId) -> (s: &'static str)
    ensures
        s@ == spec_token_display(id),
{
    match id {
        T_EQL => "=",
        T_BLANK => "_",
        T_COLON => ":",
        T_COMMA => ",",
        T_COMMENT => "#",
        T_DURATION => "[du]",
        T_EOF => "<eof>",
        T_ERROR => "{Err}",
        T_IDENTIFIER => "{ID}",
        T_LEFT_BRACE => "{",
        T_LEFT_BRACKET => "[",
        T_LEFT_PAREN => "(",
        T_OPEN_HIST => "{{",
        T_CLOSE_HIST => "}}",
        T_METRIC_IDENTIFIER => "{Metric_ID}",
        T_NUMBER => "{Num}",
        T_RIGHT_BRACE => "}",
        T_RIGHT_BRACKET => "]",
        T_RIGHT_PAREN => ")",
        T_SEMICOLON => ",",
        T_SPACE => "<space>",
        T_STRING => "{Str}",
        T_TIMES => "x",
        T_OPERATORS_START => "operators_start",
        T_ADD => "+",
        T_DIV => "/",
        T_EQLC => "==",
        T_EQL_REGEX => "=~",
        T_GTE => ">=",
        T_GTR => ">",
        T_LAND => "and",
        T_LOR => "or",
        T_LSS => "<",
        T_LTE => "<=",
        T_LUNLESS => "unless",
        T_MOD => "%",
        T_MUL => "*",
        T_NEQ => "!=",
        T_NEQ_REGEX => "!~",
        T_POW => "^",
        T_SUB => "-",
        T_AT => "@",
        T_ATAN2 => "atan2",
        T_OPERATORS_END => "operators_end",
        T_AGGREGATORS_START => "aggregators_start",
        T_AVG => "avg",
        T_BOTTOMK => "bottomk",
        T_COUNT => "count",
        T_COUNT_VALUES => "count_values",
        T_GROUP => "group",
        T_MAX => "max",
        T_MIN => "min",
        T_QUANTILE => "quantile",
        T_STDDEV => "stddev",
        T_STDVAR => "stdvar",
        T_SUM => "sum",
        T_TOPK => "topk",
        T_LIMITK => "limitk",
        T_LIMIT_RATIO => "limit_ratio",
        T_AGGREGATORS_END => "aggregators_end",
        T_KEYWORDS_START => "keywords_start",
        T_BOOL => "bool",
        T_BY => "by",
        T_GROUP_LEFT => "group_left",
        T_GROUP_RIGHT => "group_right",
        T_IGNORING => "ignoring",
        T_OFFSET => "offset",
        T_SMOOTHED => "smoothed",
        T_ANCHORED => "anchored",
        T_ON => "on",
        T_WITHOUT => "without",
        T_KEYWORDS_END => "keywords_end",
        T_PREPROCESSOR_START => "preprocessor_start",
        T_START => "start",
        T_END => "end",
        T_STEP => "step",
        T_PREPROCESSOR_END => "preprocessors_end",
        T_STARTSYMBOLS_START | T_START_METRIC | T_START_SERIES_DESCRIPTION | T_START_EXPRESSION
        | T_START_METRIC_SELECTOR | T_STARTSYMBOLS_END => "not used",
        _ => "unknown token",
    }
}

/// The token of the keyword `s` (in lower case), if `s` is a keyword of PromQL: the
/// operators `and`, `or`, `unless`, `atan2`, the aggregators, the modifiers, the
/// preprocessors `start` and `end`, and the special numbers `inf` and `nan`.
pub open spec fn spec_keyword_token(s: Seq<char>) -> Option<TokenId> {
    if s == "and"@ {
        Some(T_LAND)
    } else if s == "or"@ {
        Some(T_LOR)
    } else if s == "unless"@ {
        Some(T_LUNLESS)
    } else if s == "atan2"@ {
        Some(T_ATAN2)
    } else if s == "sum"@ {
        Some(T_SUM)
    } else if s == "avg"@ {
        Some(T_AVG)
    } else if s == "count"@ {
        Some(T_COUNT)
    } else if s == "min"@ {
        Some(T_MIN)
    } else if s == "max"@ {
        Some(T_MAX)
    } else if s == "group"@ {
        Some(T_GROUP)
    } else if s == "stddev"@ {
        Some(T_STDDEV)
    } else if s == "stdvar"@ {
        Some(T_STDVAR)
    } else if s == "topk"@ {
        Some(T_TOPK)
    } else if s == "bottomk"@ {
        Some(T_BOTTOMK)
    } else if s == "count_values"@ {
        Some(T_COUNT_VALUES)
    } else if s == "quantile"@ {
        Some(T_QUANTILE)
    } else if s == "limitk"@ {
        Some(T_LIMITK)
    } else if s == "limit_ratio"@ {
        Some(T_LIMIT_RATIO)
    } else if s == "offset"@ {
        Some(T_OFFSET)
    } else if s == "by"@ {
        Some(T_BY)
    } else if s == "without"@ {
        Some(T_WITHOUT)
    } else if s == "on"@ {
        Some(T_ON)
    } else if s == "ignoring"@ {
        Some(T_IGNORING)
    } else if s == "group_left"@ {
        Some(T_GROUP_LEFT)
    } else if s == "group_right"@ {
        Some(T_GROUP_RIGHT)
    } else if s == "bool"@ {
        Some(T_BOOL)
    } else if s == "smoothed"@ {
        Some(T_SMOOTHED)
    } else if s == "anchored"@ {
        Some(T_ANCHORED)
    } else if s == "start"@ {
        Some(T_START)
    } else if s == "end"@ {
        Some(T_END)
    } else if s == "inf"@ {
        Some(T_NUMBER)
    } else if s == "nan"@ {
        Some(T_NUMBER)
    } else {
        None
    }
}

fn chars_are(cs: &Vec<char>, lit: &str) -> (b: bool)
    ensures
        b == (cs@ == lit@),
{
    let l = str_to_chars(lit);
    crate::util::text::chars_eq(cs, &l)
}

/// The token of the keyword `s`; see `spec_keyword_token`.
pub fn get_keyword_token(s: &str) -> (r: Option<TokenId>)
    ensures
        r == spec_keyword_token(s@),
{
    let cs = str_to_chars(s);
    if chars_are(&cs, "and") {
        return Some(T_LAND);
    }
    if chars_are(&cs, "or") {
        return Some(T_LOR);
    }
    if chars_are(&cs, "unless") {
        return Some(T_LUNLESS);
    }
    if chars_are(&cs, "atan2") {
        return Some(T_ATAN2);
    }
    if chars_are(&cs, "sum") {
        return Some(T_SUM);
    }
    if chars_are(&cs, "avg") {
        return Some(T_AVG);
    }
    if chars_are(&cs, "count") {
        return Some(T_COUNT);
    }
    if chars_are(&cs, "min") {
        return Some(T_MIN);
    }
    if chars_are(&cs, "max") {
        return Some(T_MAX);
    }
    if chars_are(&cs, "group") {
        return Some(T_GROUP);
    }
    if chars_are(&cs, "stddev") {
        return Some(T_STDDEV);
    }
    if chars_are(&cs, "stdvar") {
        return Some(T_STDVAR);
    }
    if chars_are(&cs, "topk") {
        return Some(T_TOPK);
    }
    if chars_are(&cs, "bottomk") {
        return Some(T_BOTTOMK);
    }
    if chars_are(&cs, "count_values") {
        return Some(T_COUNT_VALUES);
    }
    if chars_are(&cs, "quantile") {
        return Some(T_QUANTILE);
    }
    if chars_are(&cs, "limitk") {
        return Some(T_LIMITK);
    }
    if chars_are(&cs, "limit_ratio") {
        return Some(T_LIMIT_RATIO);
    }
    if chars_are(&cs, "offset") {
        return Some(T_OFFSET);
    }
    if chars_are(&cs, "by") {
        return Some(T_BY);
    }
    if chars_are(&cs, "without") {
        return Some(T_WITHOUT);
    }
    if chars_are(&cs, "on") {
        return Some(T_ON);
    }
    if chars_are(&cs, "ignoring") {
        return Some(T_IGNORING);
    }
    if chars_are(&cs, "group_left") {
        return Some(T_GROUP_LEFT);
    }
    if chars_are(&cs, "group_right") {
        return Some(T_GROUP_RIGHT);
    }
    if chars_are(&cs, "bool") {
        return Some(T_BOOL);
    }
    if chars_are(&cs, "smoothed") {
        return Some(T_SMOOTHED);
    }
    if chars_are(&cs, "anchored") {
        return Some(T_ANCHORED);
    }
    if chars_are(&cs, "start") {
        return Some(T_START);
    }
    if chars_are(&cs, "end") {
        return Some(T_END);
    }
    if chars_are(&cs, "inf") {
        return Some(T_NUMBER);
    }
    if chars_are(&cs, "nan") {
        return Some(T_NUMBER);
    }
    None
}

/// A token kind.
#[derive(Debug, Copy, Clone, PartialEq, Eq, Structural)]
pub struct TokenType(pub TokenId);

/// Whether `id` lies strictly between the markers `T_AGGREGATORS_START` and `T_AGGREGATORS_END`.
pub open spec fn spec_is_aggregator(id: TokenId) -> bool {
    T_AGGREGATORS_START < id && id < T_AGGREGATORS_END
}

/// Whether `id` is an aggregator that takes a parameter.
pub open spec fn spec_is_aggregator_with_param(id: TokenId) -> bool {
    id == T_TOPK || id == T_BOTTOMK || id == T_COUNT_VALUES || id == T_QUANTILE
}

/// Whether `id` is a comparison operator.
pub open spec fn spec_is_comparison_operator(id: TokenId) -> bool {
    id == T_EQLC || id == T_NEQ || id == T_LTE || id == T_LSS || id == T_GTE || id == T_GTR
}

/// Whether `id` is a set operator.
pub open spec fn spec_is_set_operator(id: TokenId) -> bool {
    id == T_LAND || id == T_LOR || id == T_LUNLESS
}

/// Whether `id` lies strictly between the markers `T_OPERATORS_START` and `T_OPERATORS_END`.
pub open spec fn spec_is_operator(id: TokenId) -> bool {
    T_OPERATORS_START < id && id < T_OPERATORS_END
}

impl TokenType {
    pub fn new(id: TokenId) -> (t: TokenType)
        ensures
            t.0 == id,
    {
        TokenType(id)
    }

    pub fn id(&self) -> (id: TokenId)
        ensures
            id == self.0,
    {
        self.0
    }

    pub fn is_aggregator(&self) -> (b: bool)
        ensures
            b == spec_is_aggregator(self.0),
    {
        self.0 > T_AGGREGATORS_START && self.0 < T_AGGREGATORS_END
    }

    pub fn is_aggregator_with_param(&self) -> (b: bool)
        ensures
            b == spec_is_aggregator_with_param(self.0),
    {
        self.0 == T_TOPK || self.0 == T_BOTTOMK || self.0 == T_COUNT_VALUES || self.0 == T_QUANTILE
    }

    pub fn is_comparison_operator(&self) -> (b: bool)
        ensures
            b == spec_is_comparison_operator(self.0),
    {
        self.0 == T_EQLC || self.0 == T_NEQ || self.0 == T_LTE || self.0 == T_LSS || self.0 == T_GTE
            || self.0 == T_GTR
    }

    pub fn is_set_operator(&self) -> (b: bool)
        ensures
            b == spec_is_set_operator(self.0),
    {
        self.0 == T_LAND || self.0 == T_LOR || self.0 == T_LUNLESS
    }

    pub fn is_operator(&self) -> (b: bool)
        ensures
            b == spec_is_operator(self.0),
    {
        self.0 > T_OPERATORS_START && self.0 < T_OPERATORS_END
    }

    /// The display text of the token kind.
    pub fn to_string(&self) -> (s: String)
        ensures
            s@ == spec_token_display(self.0),
    {
        str_to_string(token_display(self.0))
    }
}

/// A token: its kind and its text.
#[derive(Debug, Clone, PartialEq, Eq)]
pub struct Token {
    pub id: TokenType,
    pub val: String,
}

impl Token {
    pub fn new(id: TokenId, val: String) -> (t: Token)
        ensures
            t.id.0 == id,
            t.val@ == val@,
    {
        Token { id: TokenType(id), val }
    }

    pub fn id(&self) -> (id: TokenId)
        ensures
            id == self.id.0,
    {
        self.id.id()
    }
}


/// A keyword that names a token (every keyword but `inf` and `nan`, which are numbers)
/// is the display text of that token, so that printing a token gives back its keyword.
pub proof fn lemma_keyword_display(s: Seq<char>)
    requires
        spec_keyword_token(s) matches Some(id) && id != T_NUMBER,
    ensures
        spec_token_display(spec_keyword_token(s)->0) == s,
{
}

} // verus!
