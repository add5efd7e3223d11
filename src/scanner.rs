//! The lexical scanner: turns source text into tokens one call at a time,
//! tracking line numbers and classifying identifiers against the keywords.

use vstd::prelude::*;
use crate::text::{chars_of, string_of};

verus! {

/// The kinds of token.
#[allow(non_camel_case_types)]
#[derive(Clone, Copy, Debug, PartialEq, Eq, Structural)]
pub enum TOKEN {
    // Single-character tokens.
    LEFT_PAREN,
    RIGHT_PAREN,
    LEFT_BRACE,
    RIGHT_BRACE,
    COMMA,
    DOT,
    MINUS,
    PLUS,
    SEMICOLON,
    SLASH,
    STAR,
    // One or two character tokens.
    BANG,
    BANG_EQUAL,
    EQUAL,
    EQUAL_EQUAL,
    GREATER,
    GREATER_EQUAL,
    LESS,
    LESS_EQUAL,
    // Literals.
    IDENTIFIER,
    STRING,
    NUMBER,
    // Keywords.
    AND,
    CLASS,
    ELSE,
    FALSE,
    FOR,
    FUN,
    IF,
    NIL,
    OR,
    PRINT,
    RETURN,
    SUPER,
    THIS,
    TRUE,
    VAR,
    WHILE,
    EOF,
}

impl TOKEN {
    /// The kind's name as the token listing prints it.
    pub open spec fn spec_name(self) -> Seq<char> {
        match self {
            TOKEN::LEFT_PAREN => "LEFT_PAREN"@,
            TOKEN::RIGHT_PAREN => "RIGHT_PAREN"@,
            TOKEN::LEFT_BRACE => "LEFT_BRACE"@,
            TOKEN::RIGHT_BRACE => "RIGHT_BRACE"@,
            TOKEN::COMMA => "COMMA"@,
            TOKEN::DOT => "DOT"@,
            TOKEN::MINUS => "MINUS"@,
            TOKEN::PLUS => "PLUS"@,
            TOKEN::SEMICOLON => "SEMICOLON"@,
            TOKEN::SLASH => "SLASH"@,
            TOKEN::STAR => "STAR"@,
            TOKEN::BANG => "BANG"@,
            TOKEN::BANG_EQUAL => "BANG_EQUAL"@,
            TOKEN::EQUAL => "EQUAL"@,
            TOKEN::EQUAL_EQUAL => "EQUAL_EQUAL"@,
            TOKEN::GREATER => "GREATER"@,
            TOKEN::GREATER_EQUAL => "GREATER_EQUAL"@,
            TOKEN::LESS => "LESS"@,
            TOKEN::LESS_EQUAL => "LESS_EQUAL"@,
            TOKEN::IDENTIFIER => "IDENTIFIER"@,
            TOKEN::STRING => "STRING"@,
            TOKEN::NUMBER => "NUMBER"@,
            TOKEN::AND => "AND"@,
            TOKEN::CLASS => "CLASS"@,
            TOKEN::ELSE => "ELSE"@,
            TOKEN::FALSE => "FALSE"@,
            TOKEN::FOR => "FOR"@,
            TOKEN::FUN => "FUN"@,
            TOKEN::IF => "IF"@,
            TOKEN::NIL => "NIL"@,
            TOKEN::OR => "OR"@,
            TOKEN::PRINT => "PRINT"@,
            TOKEN::RETURN => "RETURN"@,
            TOKEN::SUPER => "SUPER"@,
            TOKEN::THIS => "THIS"@,
            TOKEN::TRUE => "TRUE"@,
            TOKEN::VAR => "VAR"@,
            TOKEN::WHILE => "WHILE"@,
            TOKEN::EOF => "EOF"@,
        }
    }

    pub fn name(self) -> (r: &'static str)
        ensures
            r@ == self.spec_name(),
    {
        match self {
            TOKEN::LEFT_PAREN => "LEFT_PAREN",
            TOKEN::RIGHT_PAREN => "RIGHT_PAREN",
            TOKEN::LEFT_BRACE => "LEFT_BRACE",
            TOKEN::RIGHT_BRACE => "RIGHT_BRACE",
            TOKEN::COMMA => "COMMA",
            TOKEN::DOT => "DOT",
            TOKEN::MINUS => "MINUS",
            TOKEN::PLUS => "PLUS",
            TOKEN::SEMICOLON => "SEMICOLON",
            TOKEN::SLASH => "SLASH",
            TOKEN::STAR => "STAR",
            TOKEN::BANG => "BANG",
            TOKEN::BANG_EQUAL => "BANG_EQUAL",
            TOKEN::EQUAL => "EQUAL",
            TOKEN::EQUAL_EQUAL => "EQUAL_EQUAL",
            TOKEN::GREATER => "GREATER",
            TOKEN::GREATER_EQUAL => "GREATER_EQUAL",
            TOKEN::LESS => "LESS",
            TOKEN::LESS_EQUAL => "LESS_EQUAL",
            TOKEN::IDENTIFIER => "IDENTIFIER",
            TOKEN::STRING => "STRING",
            TOKEN::NUMBER => "NUMBER",
            TOKEN::AND => "AND",
            TOKEN::CLASS => "CLASS",
            TOKEN::ELSE => "ELSE",
            TOKEN::FALSE => "FALSE",
            TOKEN::FOR => "FOR",
            TOKEN::FUN => "FUN",
            TOKEN::IF => "IF",
            TOKEN::NIL => "NIL",
            TOKEN::OR => "OR",
            TOKEN::PRINT => "PRINT",
            TOKEN::RETURN => "RETURN",
            TOKEN::SUPER => "SUPER",
            TOKEN::THIS => "THIS",
            TOKEN::TRUE => "TRUE",
            TOKEN::VAR => "VAR",
            TOKEN::WHILE => "WHILE",
            TOKEN::EOF => "EOF",
        }
    }
}

/// A token: its kind, the span of its lexeme in the source (in characters),
/// and the line the scanner stood on when it ended.
#[derive(Clone, Copy, Debug, PartialEq, Eq, Structural)]
pub struct Token {
    pub ty: TOKEN,
    pub start: usize,
    pub length: usize,
    pub line: usize,
}

/// A scanning error and the line it refers to.
#[derive(Debug)]
pub struct TokenError {
    pub message: String,
    pub line: usize,
}

/// The message of an error on a character that starts no token.
pub open spec fn unexpected_message() -> Seq<char> {
    "Unexpected character."@
}

/// The message of an error on a string literal that reaches the end of input.
pub open spec fn unterminated_message() -> Seq<char> {
    "Unterminated string."@
}

pub open spec fn is_digit(c: char) -> bool {
    '0' <= c && c <= '9'
}

pub open spec fn is_alpha(c: char) -> bool {
    ('a' <= c && c <= 'z') || ('A' <= c && c <= 'Z') || c == '_'
}

/// The kind of a character that is a token by itself.
pub open spec fn punct_kind(c: char) -> Option<TOKEN> {
    if c == '(' {
        Some(TOKEN::LEFT_PAREN)
    } else if c == ')' {
        Some(TOKEN::RIGHT_PAREN)
    } else if c == '{' {
        Some(TOKEN::LEFT_BRACE)
    } else if c == '}' {
        Some(TOKEN::RIGHT_BRACE)
    } else if c == ';' {
        Some(TOKEN::SEMICOLON)
    } else if c == ',' {
        Some(TOKEN::COMMA)
    } else if c == '.' {
        Some(TOKEN::DOT)
    } else if c == '-' {
        Some(TOKEN::MINUS)
    } else if c == '+' {
        Some(TOKEN::PLUS)
    } else if c == '/' {
        Some(TOKEN::SLASH)
    } else if c == '*' {
        Some(TOKEN::STAR)
    } else {
        None
    }
}

/// The characters that start a one- or two-character operator.
pub open spec fn is_operator_start(c: char) -> bool {
    c == '!' || c == '=' || c == '<' || c == '>'
}

/// The kind of operator `c`, followed by `=` when `with_equal` holds.
pub open spec fn operator_kind(c: char, with_equal: bool) -> TOKEN {
    if c == '!' {
        if with_equal { TOKEN::BANG_EQUAL } else { TOKEN::BANG }
    } else if c == '=' {
        if with_equal { TOKEN::EQUAL_EQUAL } else { TOKEN::EQUAL }
    } else if c == '<' {
        if with_equal { TOKEN::LESS_EQUAL } else { TOKEN::LESS }
    } else {
        if with_equal { TOKEN::GREATER_EQUAL } else { TOKEN::GREATER }
    }
}

/// The kind of an identifier-shaped lexeme: its keyword, or `IDENTIFIER`.
pub open spec fn keyword_kind(w: Seq<char>) -> TOKEN {
    if w == "and"@ {
        TOKEN::AND
    } else if w == "class"@ {
        TOKEN::CLASS
    } else if w == "else"@ {
        TOKEN::ELSE
    } else if w == "false"@ {
        TOKEN::FALSE
    } else if w == "for"@ {
        TOKEN::FOR
    } else if w == "fun"@ {
        TOKEN::FUN
    } else if w == "if"@ {
        TOKEN::IF
    } else if w == "nil"@ {
        TOKEN::NIL
    } else if w == "or"@ {
        TOKEN::OR
    } else if w == "print"@ {
        TOKEN::PRINT
    } else if w == "return"@ {
        TOKEN::RETURN
    } else if w == "super"@ {
        TOKEN::SUPER
    } else if w == "this"@ {
        TOKEN::THIS
    } else if w == "true"@ {
        TOKEN::TRUE
    } else if w == "var"@ {
        TOKEN::VAR
    } else if w == "while"@ {
        TOKEN::WHILE
    } else {
        TOKEN::IDENTIFIER
    }
}

/// Where skipping whitespace and comments from `i` on `line` stops, and the
/// line reached there; `in_comment` holds inside a `//` comment.
pub open spec fn skip_ws(s: Seq<char>, i: int, line: int, in_comment: bool) -> (int, int)
    decreases s.len() - i,
{
    if i < 0 || i >= s.len() {
        (i, line)
    } else if s[i] == '\n' {
        skip_ws(s, i + 1, line + 1, false)
    } else if in_comment {
        skip_ws(s, i + 1, line, true)
    } else if s[i] == ' ' || s[i] == '\r' || s[i] == '\t' {
        skip_ws(s, i + 1, line, false)
    } else if s[i] == '/' && i + 1 < s.len() && s[i + 1] == '/' {
        skip_ws(s, i + 2, line, true)
    } else {
        (i, line)
    }
}

/// The end of the run of digits that starts at `i`.
pub open spec fn digits_end(s: Seq<char>, i: int) -> int
    decreases s.len() - i,
{
    if 0 <= i < s.len() && is_digit(s[i]) {
        digits_end(s, i + 1)
    } else {
        i
    }
}

/// The end of a number literal that starts with the digit at `p`: its
/// digits, then a `.` and further digits only when a digit follows the `.`.
pub open spec fn number_end(s: Seq<char>, p: int) -> int {
    let j = digits_end(s, p + 1);
    if j + 1 < s.len() && s[j] == '.' && is_digit(s[j + 1]) {
        digits_end(s, j + 2)
    } else {
        j
    }
}

/// The end of the run of letters, digits and underscores that starts at `i`.
pub open spec fn ident_end(s: Seq<char>, i: int) -> int
    decreases s.len() - i,
{
    if 0 <= i < s.len() && (is_alpha(s[i]) || is_digit(s[i])) {
        ident_end(s, i + 1)
    } else {
        i
    }
}

/// The position of the first `"` at or after `i`, or the end of input.
pub open spec fn string_end(s: Seq<char>, i: int) -> int
    decreases s.len() - i,
{
    if 0 <= i < s.len() && s[i] != '"' {
        string_end(s, i + 1)
    } else {
        i
    }
}

/// The number of newlines in `s[a..b]`.
pub open spec fn newlines(s: Seq<char>, a: int, b: int) -> int
    decreases b - a,
{
    if b <= a {
        0
    } else {
        newlines(s, a, b - 1) + if s[b - 1] == '\n' { 1int } else { 0int }
    }
}

/// The outcome of one scan: a token kind or an error message, the lexeme's
/// span, the line the scanner stands on afterwards, and the line the token
/// or error reports.
pub struct ScanStep {
    pub kind: Result<TOKEN, Seq<char>>,
    pub start: int,
    pub end: int,
    pub line: int,
    pub report_line: int,
}

/// One scan of `s` from position `p`, on `line`, where no whitespace or
/// comment starts at `p`.
pub open spec fn scan_at(s: Seq<char>, p: int, line: int) -> ScanStep {
    if p >= s.len() {
        ScanStep { kind: Ok(TOKEN::EOF), start: p, end: p, line, report_line: line }
    } else if punct_kind(s[p]) is Some {
        ScanStep { kind: Ok(punct_kind(s[p])->0), start: p, end: p + 1, line, report_line: line }
    } else if is_operator_start(s[p]) {
        let with_equal = p + 1 < s.len() && s[p + 1] == '=';
        ScanStep {
            kind: Ok(operator_kind(s[p], with_equal)),
            start: p,
            end: if with_equal { p + 2 } else { p + 1 },
            line,
            report_line: line,
        }
    } else if s[p] == '"' {
        let q = string_end(s, p + 1);
        let after = line + newlines(s, p + 1, q);
        if q >= s.len() {
            ScanStep { kind: Err(unterminated_message()), start: p, end: q, line: after, report_line: line }
        } else {
            ScanStep { kind: Ok(TOKEN::STRING), start: p, end: q + 1, line: after, report_line: after }
        }
    } else if is_digit(s[p]) {
        ScanStep { kind: Ok(TOKEN::NUMBER), start: p, end: number_end(s, p), line, report_line: line }
    } else if is_alpha(s[p]) {
        let e = ident_end(s, p + 1);
        ScanStep { kind: Ok(keyword_kind(s.subrange(p, e))), start: p, end: e, line, report_line: line }
    } else {
        ScanStep { kind: Err(unexpected_message()), start: p, end: p + 1, line, report_line: line }
    }
}

/// One scan of `s` from `cur` on `line`: skip whitespace and comments, then
/// take one token.
pub open spec fn scan_spec(s: Seq<char>, cur: int, line: int) -> ScanStep {
    let (p, l) = skip_ws(s, cur, line, false);
    scan_at(s, p, l)
}

/// What `scan_token` returns for the outcome `st`.
pub open spec fn step_result(st: ScanStep, r: Result<Token, TokenError>) -> bool {
    match st.kind {
        Ok(k) => r matches Ok(t) && t.ty == k && t.start == st.start && t.length == st.end - st.start
            && t.line == st.line,
        Err(m) => r matches Err(e) && e.message@ == m && e.line == st.report_line,
    }
}

/// Past a position from which no `"` follows, a string runs to the end of input.
proof fn lemma_string_runs_to_end(s: Seq<char>, i: int)
    requires
        0 <= i <= s.len(),
        forall|k: int| i <= k < s.len() ==> s[k] != '"',
    ensures
        string_end(s, i) == s.len(),
    decreases s.len() - i,
{
    if i < s.len() {
        lemma_string_runs_to_end(s, i + 1);
    }
}

/// A run of letters, digits and underscores from `i` reaches the end of input.
proof fn lemma_ident_runs_to_end(s: Seq<char>, i: int)
    requires
        0 <= i <= s.len(),
        forall|k: int| i <= k < s.len() ==> is_alpha(s[k]) || is_digit(s[k]),
    ensures
        ident_end(s, i) == s.len(),
    decreases s.len() - i,
{
    if i < s.len() {
        lemma_ident_runs_to_end(s, i + 1);
    }
}

/// A single punctuation character scans as exactly one token of its kind and
/// of length 1, after which only the end of input follows.
pub proof fn lemma_single_punctuation(c: char, line: int)
    requires
        punct_kind(c) is Some,
    ensures
        scan_spec(seq![c], 0, line).kind == Ok::<TOKEN, Seq<char>>(punct_kind(c)->0),
        scan_spec(seq![c], 0, line).start == 0,
        scan_spec(seq![c], 0, line).end == 1,
        scan_spec(seq![c], 1, line).kind == Ok::<TOKEN, Seq<char>>(TOKEN::EOF),
{
    assert(skip_ws(seq![c], 0, line, false) == (0int, line));
}

/// An operator character followed by `=` scans as one token of the combined
/// two-character kind, after which only the end of input follows.
pub proof fn lemma_two_char_operator(c: char, line: int)
    requires
        is_operator_start(c),
    ensures
        scan_spec(seq![c, '='], 0, line).kind == Ok::<TOKEN, Seq<char>>(operator_kind(c, true)),
        scan_spec(seq![c, '='], 0, line).start == 0,
        scan_spec(seq![c, '='], 0, line).end == 2,
        scan_spec(seq![c, '='], 2, line).kind == Ok::<TOKEN, Seq<char>>(TOKEN::EOF),
{
    assert(skip_ws(seq![c, '='], 0, line, false) == (0int, line));
}

/// A string literal that is never closed scans as the unterminated-string
/// error, reported on the line where the string started.
pub proof fn lemma_unterminated_string(body: Seq<char>, line: int)
    requires
        forall|k: int| 0 <= k < body.len() ==> body[k] != '"',
    ensures
        scan_spec(seq!['"'] + body, 0, line).kind == Err::<TOKEN, Seq<char>>(unterminated_message()),
        scan_spec(seq!['"'] + body, 0, line).report_line == line,
{
    let s = seq!['"'] + body;
    assert(skip_ws(s, 0, line, false) == (0int, line));
    assert forall|k: int| 1 <= k < s.len() implies s[k] != '"' by {
        assert(s[k] == body[k - 1]);
    }
    lemma_string_runs_to_end(s, 1);
}

/// An identifier-shaped input scans as one token spanning all of it, whose
/// kind is the keyword it spells exactly, or `IDENTIFIER` when it spells none.
pub proof fn lemma_identifier_or_keyword(s: Seq<char>, line: int)
    requires
        s.len() > 0,
        is_alpha(s[0]),
        forall|k: int| 0 <= k < s.len() ==> is_alpha(s[k]) || is_digit(s[k]),
    ensures
        scan_spec(s, 0, line).kind == Ok::<TOKEN, Seq<char>>(keyword_kind(s)),
        scan_spec(s, 0, line).start == 0,
        scan_spec(s, 0, line).end == s.len(),
{
    assert(skip_ws(s, 0, line, false) == (0int, line));
    lemma_ident_runs_to_end(s, 1);
    assert(s.subrange(0, s.len() as int) =~= s);
}

proof fn lemma_skip_ws_bounds(s: Seq<char>, i: int, line: int, in_comment: bool)
    requires
        0 <= i <= s.len(),
    ensures
        i <= skip_ws(s, i, line, in_comment).0 <= s.len(),
    decreases s.len() - i,
{
    if i < s.len() {
        if s[i] == '\n' {
            lemma_skip_ws_bounds(s, i + 1, line + 1, false);
        } else if in_comment {
            lemma_skip_ws_bounds(s, i + 1, line, true);
        } else if s[i] == ' ' || s[i] == '\r' || s[i] == '\t' {
            lemma_skip_ws_bounds(s, i + 1, line, false);
        } else if s[i] == '/' && i + 1 < s.len() && s[i + 1] == '/' {
            lemma_skip_ws_bounds(s, i + 2, line, true);
        }
    }
}

proof fn lemma_run_bounds(s: Seq<char>, i: int)
    requires
        0 <= i <= s.len(),
    ensures
        i <= digits_end(s, i) <= s.len(),
        i <= ident_end(s, i) <= s.len(),
        i <= string_end(s, i) <= s.len(),
    decreases s.len() - i,
{
    if i < s.len() {
        lemma_run_bounds(s, i + 1);
    }
}

/// A scan from a position inside the input yields a span inside the input
/// after that position; every token but `EOF` moves past it, and `EOF`
/// comes only at the end.
pub proof fn lemma_scan_bounds(s: Seq<char>, cur: int, line: int)
    requires
        0 <= cur <= s.len(),
    ensures
        cur <= scan_spec(s, cur, line).start <= scan_spec(s, cur, line).end <= s.len(),
        scan_spec(s, cur, line).kind != Ok::<TOKEN, Seq<char>>(TOKEN::EOF) ==> scan_spec(s, cur, line).end > cur,
        scan_spec(s, cur, line).kind == Ok::<TOKEN, Seq<char>>(TOKEN::EOF) ==> scan_spec(s, cur, line).end
            == s.len(),
{
    lemma_skip_ws_bounds(s, cur, line, false);
    let p = skip_ws(s, cur, line, false).0;
    if p < s.len() {
        lemma_run_bounds(s, p + 1);
        let j = digits_end(s, p + 1);
        if j + 1 < s.len() {
            lemma_run_bounds(s, j + 2);
        }
    }
}

/// Once a scan yields `EOF`, the scanner stands at the end of input, and
/// every later scan yields `EOF` again with the same empty span.
pub proof fn lemma_eof_repeats(s: Seq<char>, cur: int, line: int)
    requires
        0 <= cur <= s.len(),
        scan_spec(s, cur, line).kind == Ok::<TOKEN, Seq<char>>(TOKEN::EOF),
    ensures
        scan_spec(s, cur, line).end == s.len(),
        scan_spec(s, s.len() as int, scan_spec(s, cur, line).line) == scan_spec(s, cur, line),
{
    lemma_scan_bounds(s, cur, line);
}

/// Newlines counted over adjacent ranges add up.
pub proof fn lemma_newlines_split(s: Seq<char>, a: int, b: int, c: int)
    requires
        a <= b <= c,
    ensures
        newlines(s, a, c) == newlines(s, a, b) + newlines(s, b, c),
    decreases c - b,
{
    if c > b {
        lemma_newlines_split(s, a, b, c - 1);
    }
}

proof fn lemma_no_newlines(s: Seq<char>, a: int, b: int)
    requires
        forall|k: int| a <= k < b ==> s[k] != '\n',
    ensures
        newlines(s, a, b) == 0,
    decreases b - a,
{
    if b > a {
        lemma_no_newlines(s, a, b - 1);
    }
}

proof fn lemma_skip_ws_lines(s: Seq<char>, i: int, line: int, in_comment: bool)
    requires
        0 <= i <= s.len(),
    ensures
        skip_ws(s, i, line, in_comment).1 == line + newlines(s, i, skip_ws(s, i, line, in_comment).0),
        skip_ws(s, i, line, in_comment).0 < s.len() ==> s[skip_ws(s, i, line, in_comment).0] != '\n',
    decreases s.len() - i,
{
    lemma_skip_ws_bounds(s, i, line, in_comment);
    if i < s.len() {
        let p = skip_ws(s, i, line, in_comment).0;
        assert(newlines(s, i, i) == 0);
        assert(newlines(s, i, i + 1) == if s[i] == '\n' { 1int } else { 0int });
        if s[i] == '\n' {
            lemma_skip_ws_lines(s, i + 1, line + 1, false);
            lemma_skip_ws_bounds(s, i + 1, line + 1, false);
            lemma_newlines_split(s, i, i + 1, p);
        } else if in_comment {
            lemma_skip_ws_lines(s, i + 1, line, true);
            lemma_skip_ws_bounds(s, i + 1, line, true);
            lemma_newlines_split(s, i, i + 1, p);
        } else if s[i] == ' ' || s[i] == '\r' || s[i] == '\t' {
            lemma_skip_ws_lines(s, i + 1, line, false);
            lemma_skip_ws_bounds(s, i + 1, line, false);
            lemma_newlines_split(s, i, i + 1, p);
        } else if s[i] == '/' && i + 1 < s.len() && s[i + 1] == '/' {
            lemma_skip_ws_lines(s, i + 2, line, true);
            lemma_skip_ws_bounds(s, i + 2, line, true);
            lemma_newlines_split(s, i, i + 2, p);
            lemma_no_newlines(s, i, i + 2);
        }
    }
}

proof fn lemma_run_chars(s: Seq<char>, i: int)
    requires
        0 <= i <= s.len(),
    ensures
        forall|k: int| i <= k < digits_end(s, i) ==> is_digit(s[k]),
        forall|k: int| i <= k < ident_end(s, i) ==> is_alpha(s[k]) || is_digit(s[k]),
        string_end(s, i) < s.len() ==> s[string_end(s, i)] == '"',
    decreases s.len() - i,
{
    lemma_run_bounds(s, i);
    if i < s.len() {
        lemma_run_chars(s, i + 1);
    }
}

/// A scan moves the line on by the newlines it passes over.
pub proof fn lemma_scan_lines(s: Seq<char>, cur: int, line: int)
    requires
        0 <= cur <= s.len(),
    ensures
        scan_spec(s, cur, line).line == line + newlines(s, cur, scan_spec(s, cur, line).end),
{
    lemma_skip_ws_lines(s, cur, line, false);
    lemma_skip_ws_bounds(s, cur, line, false);
    lemma_scan_bounds(s, cur, line);
    let (p, l) = skip_ws(s, cur, line, false);
    let st = scan_at(s, p, l);
    lemma_newlines_split(s, cur, p, st.end);
    if p < s.len() {
        lemma_run_bounds(s, p + 1);
        lemma_run_chars(s, p + 1);
        if punct_kind(s[p]) is Some || is_operator_start(s[p]) {
            lemma_no_newlines(s, p, st.end);
        } else if s[p] == '"' {
            let q = string_end(s, p + 1);
            lemma_newlines_split(s, p, p + 1, st.end);
            lemma_newlines_split(s, p + 1, q, st.end);
            lemma_no_newlines(s, p, p + 1);
            lemma_no_newlines(s, q, st.end);
        } else if is_digit(s[p]) {
            let j = digits_end(s, p + 1);
            if j + 1 < s.len() && s[j] == '.' && is_digit(s[j + 1]) {
                lemma_run_bounds(s, j + 2);
                lemma_run_chars(s, j + 2);
            }
            lemma_no_newlines(s, p, st.end);
        } else if is_alpha(s[p]) {
            lemma_no_newlines(s, p, st.end);
        } else {
            lemma_no_newlines(s, p, p + 1);
        }
    }
}

/// Wherever a string literal starts that is never closed, the scan gives the
/// unterminated-string error, reported on the line where the string started:
/// 1 plus the newlines before its opening quote.
pub proof fn lemma_unterminated_string_line(s: Seq<char>, cur: int, line: int)
    requires
        0 <= cur <= s.len(),
        line == 1 + newlines(s, 0, cur),
        skip_ws(s, cur, line, false).0 < s.len(),
        s[skip_ws(s, cur, line, false).0] == '"',
        forall|k: int| skip_ws(s, cur, line, false).0 < k < s.len() ==> s[k] != '"',
    ensures
        scan_spec(s, cur, line).kind == Err::<TOKEN, Seq<char>>(unterminated_message()),
        scan_spec(s, cur, line).report_line == 1 + newlines(s, 0, skip_ws(s, cur, line, false).0),
{
    let p = skip_ws(s, cur, line, false).0;
    lemma_skip_ws_lines(s, cur, line, false);
    lemma_skip_ws_bounds(s, cur, line, false);
    lemma_newlines_split(s, 0, cur, p);
    lemma_string_runs_to_end(s, p + 1);
}

/// A scanner over one source text. `start` is where the current lexeme
/// began, `current` the next character to read.
pub struct Scanner {
    source: Vec<char>,
    start: usize,
    current: usize,
    line: usize,
}

impl Scanner {
    pub closed spec fn spec_source(&self) -> Seq<char> {
        self.source@
    }

    pub closed spec fn spec_current(&self) -> int {
        self.current as int
    }

    pub closed spec fn spec_line(&self) -> int {
        self.line as int
    }

    closed spec fn cursor_ok(&self) -> bool {
        &&& self.start <= self.current <= self.source@.len()
        &&& self.source@.len() < usize::MAX
        &&& 1 <= self.line <= self.current + 1
    }

    /// The cursor lies inside the source, and the line is 1 plus the
    /// newlines before the cursor.
    pub closed spec fn wf(&self) -> bool {
        &&& self.cursor_ok()
        &&& self.line == 1 + newlines(self.source@, 0, self.current as int)
    }

    /// A scanner at the start of `source`, on line 1.
    pub fn new(source: String) -> (r: Self)
        requires
            source@.len() < usize::MAX,
        ensures
            r.wf(),
            r.spec_source() == source@,
            r.spec_line() == 1 + newlines(r.spec_source(), 0, r.spec_current()),
            r.spec_current() == 0,
            r.spec_line() == 1,
    {
        Scanner { source: chars_of(source.as_str()), start: 0, current: 0, line: 1 }
    }

    /// Skips whitespace and comments, then scans one token.
    pub fn scan_token(&mut self) -> (r: Result<Token, TokenError>)
        requires
            old(self).wf(),
        ensures
            final(self).wf(),
            0 <= final(self).spec_current() <= final(self).spec_source().len(),
            final(self).spec_line() == 1 + newlines(final(self).spec_source(), 0, final(self).spec_current()),
            final(self).spec_source() == old(self).spec_source(),
            final(self).spec_current() == scan_spec(
                old(self).spec_source(),
                old(self).spec_current(),
                old(self).spec_line(),
            ).end,
            final(self).spec_line() == scan_spec(
                old(self).spec_source(),
                old(self).spec_current(),
                old(self).spec_line(),
            ).line,
            step_result(
                scan_spec(old(self).spec_source(), old(self).spec_current(), old(self).spec_line()),
                r,
            ),
            r matches Ok(t) ==> t.start + t.length <= final(self).spec_source().len(),
    {
        proof {
            lemma_scan_bounds(self.source@, self.current as int, self.line as int);
            lemma_scan_lines(self.source@, self.current as int, self.line as int);
            let st = scan_spec(self.source@, self.current as int, self.line as int);
            lemma_newlines_split(self.source@, 0, self.current as int, st.end);
        }
        self.scan()
    }

    fn scan(&mut self) -> (r: Result<Token, TokenError>)
        requires
            old(self).cursor_ok(),
        ensures
            final(self).cursor_ok(),
            final(self).spec_source() == old(self).spec_source(),
            final(self).spec_current() == scan_spec(
                old(self).spec_source(),
                old(self).spec_current(),
                old(self).spec_line(),
            ).end,
            final(self).spec_line() == scan_spec(
                old(self).spec_source(),
                old(self).spec_current(),
                old(self).spec_line(),
            ).line,
            step_result(
                scan_spec(old(self).spec_source(), old(self).spec_current(), old(self).spec_line()),
                r,
            ),
            r matches Ok(t) ==> t.start + t.length <= final(self).spec_source().len(),
    {
        proof {
            lemma_scan_bounds(self.source@, self.current as int, self.line as int);
        }
        self.skip_whitespace();
        self.start = self.current;
        if self.is_at_end() {
            return Ok(self.make_token(TOKEN::EOF));
        }
        let c = self.advance();
        if let Some(k) = punct(c) {
            return Ok(self.make_token(k));
        }
        if c == '!' || c == '=' || c == '<' || c == '>' {
            let with_equal = self.match_char('=');
            return Ok(self.make_token(operator(c, with_equal)));
        }
        if c == '"' {
            return self.string();
        }
        if '0' <= c && c <= '9' {
            return Ok(self.number());
        }
        if ('a' <= c && c <= 'z') || ('A' <= c && c <= 'Z') || c == '_' {
            return Ok(self.identifier());
        }
        Err(self.error_token("Unexpected character.", self.line))
    }

    fn is_at_end(&self) -> (r: bool)
        requires
            self.cursor_ok(),
        ensures
            r == (self.current == self.source@.len()),
    {
        self.current == self.source.len()
    }

    fn make_token(&self, ty: TOKEN) -> (t: Token)
        requires
            self.start <= self.current,
        ensures
            t == (Token { ty, start: self.start, length: (self.current - self.start) as usize, line: self.line }),
    {
        Token { ty, start: self.start, length: self.current - self.start, line: self.line }
    }

    fn error_token(&self, message: &str, line: usize) -> (e: TokenError)
        ensures
            e.message@ == message@,
            e.line == line,
    {
        TokenError { message: message.to_owned(), line }
    }

    fn advance(&mut self) -> (c: char)
        requires
            old(self).cursor_ok(),
            old(self).current < old(self).source@.len(),
        ensures
            c == old(self).source@[old(self).current as int],
            final(self).current == old(self).current + 1,
            final(self).source@ == old(self).source@,
            final(self).start == old(self).start,
            final(self).line == old(self).line,
    {
        self.current = self.current + 1;
        self.source[self.current - 1]
    }

    /// Consumes the next character when it is `expected`.
    fn match_char(&mut self, expected: char) -> (r: bool)
        requires
            old(self).cursor_ok(),
        ensures
            r == (old(self).current < old(self).source@.len() && old(self).source@[old(self).current as int]
                == expected),
            final(self).current == old(self).current + if r { 1int } else { 0int },
            final(self).source@ == old(self).source@,
            final(self).start == old(self).start,
            final(self).line == old(self).line,
    {
        if self.is_at_end() || self.source[self.current] != expected {
            false
        } else {
            self.current = self.current + 1;
            true
        }
    }

    fn peek(&self) -> (r: Option<char>)
        requires
            self.cursor_ok(),
        ensures
            r == if self.current < self.source@.len() {
                Some(self.source@[self.current as int])
            } else {
                None::<char>
            },
    {
        if self.current < self.source.len() {
            Some(self.source[self.current])
        } else {
            None
        }
    }

    fn peek_next(&self) -> (r: Option<char>)
        requires
            self.cursor_ok(),
        ensures
            r == if self.current + 1 < self.source@.len() {
                Some(self.source@[self.current + 1])
            } else {
                None::<char>
            },
    {
        if self.current + 1 < self.source.len() {
            Some(self.source[self.current + 1])
        } else {
            None
        }
    }

    fn skip_whitespace(&mut self)
        requires
            old(self).cursor_ok(),
        ensures
            final(self).cursor_ok(),
            final(self).source@ == old(self).source@,
            final(self).start == old(self).start,
            (final(self).current as int, final(self).line as int) == skip_ws(
                old(self).source@,
                old(self).current as int,
                old(self).line as int,
                false,
            ),
    {
        let ghost s = self.source@;
        let ghost target = skip_ws(s, self.current as int, self.line as int, false);
        loop
            invariant
                self.cursor_ok(),
                self.source@ == s,
                self.start == old(self).start,
                skip_ws(s, self.current as int, self.line as int, false) == target,
            ensures
                self.cursor_ok(),
                self.source@ == s,
                self.start == old(self).start,
                (self.current as int, self.line as int) == target,
            decreases s.len() - self.current,
        {
            let ghost before = self.current;
            match self.peek() {
                Some(c) => {
                    if c == ' ' || c == '\r' || c == '\t' {
                        self.advance();
                    } else if c == '\n' {
                        self.advance();
                        self.line = self.line + 1;
                    } else if c == '/' && self.peek_next() == Some('/') {
                        self.advance();
                        self.advance();
                        while self.peek() != Some('\n') && self.peek().is_some()
                            invariant
                                self.cursor_ok(),
                                self.source@ == s,
                                self.start == old(self).start,
                                self.current >= before + 2,
                                skip_ws(s, self.current as int, self.line as int, true) == target,
                            decreases s.len() - self.current,
                        {
                            self.advance();
                        }
                    } else {
                        break;
                    }
                },
                None => {
                    break;
                },
            }
        }
    }

    /// Scans the rest of a string literal whose `"` was just consumed.
    fn string(&mut self) -> (r: Result<Token, TokenError>)
        requires
            old(self).cursor_ok(),
            old(self).current == old(self).start + 1,
            old(self).source@[old(self).start as int] == '"',
        ensures
            final(self).cursor_ok(),
            final(self).source@ == old(self).source@,
            final(self).start == old(self).start,
            final(self).current == scan_at(old(self).source@, old(self).start as int, old(self).line as int).end,
            final(self).line == scan_at(old(self).source@, old(self).start as int, old(self).line as int).line,
            step_result(scan_at(old(self).source@, old(self).start as int, old(self).line as int), r),
    {
        let ghost s = self.source@;
        let ghost p = self.start as int;
        let start_line = self.line;
        loop
            invariant
                self.cursor_ok(),
                self.source@ == s,
                self.start == old(self).start,
                p + 1 <= self.current,
                string_end(s, self.current as int) == string_end(s, p + 1),
                self.line == start_line + newlines(s, p + 1, self.current as int),
            ensures
                self.cursor_ok(),
                self.source@ == s,
                self.start == old(self).start,
                self.current == string_end(s, p + 1),
                self.line == start_line + newlines(s, p + 1, self.current as int),
            decreases s.len() - self.current,
        {
            match self.peek() {
                Some(c) => {
                    if c == '"' {
                        break;
                    }
                    self.advance();
                    if c == '\n' {
                        self.line = self.line + 1;
                    }
                },
                None => {
                    break;
                },
            }
        }
        if self.is_at_end() {
            Err(self.error_token("Unterminated string.", start_line))
        } else {
            self.advance();
            Ok(self.make_token(TOKEN::STRING))
        }
    }

    /// Advances over a run of digits.
    fn digits(&mut self)
        requires
            old(self).cursor_ok(),
        ensures
            final(self).cursor_ok(),
            final(self).source@ == old(self).source@,
            final(self).start == old(self).start,
            final(self).line == old(self).line,
            final(self).current == digits_end(old(self).source@, old(self).current as int),
    {
        loop
            invariant
                self.cursor_ok(),
                self.source@ == old(self).source@,
                self.start == old(self).start,
                self.line == old(self).line,
                digits_end(self.source@, self.current as int) == digits_end(
                    old(self).source@,
                    old(self).current as int,
                ),
            ensures
                self.current == digits_end(self.source@, self.current as int),
            decreases self.source@.len() - self.current,
        {
            match self.peek() {
                Some(c) => {
                    if '0' <= c && c <= '9' {
                        self.advance();
                    } else {
                        break;
                    }
                },
                None => {
                    break;
                },
            }
        }
    }

    /// Scans the rest of a number literal whose first digit was just consumed.
    fn number(&mut self) -> (t: Token)
        requires
            old(self).cursor_ok(),
            old(self).current == old(self).start + 1,
        ensures
            final(self).cursor_ok(),
            final(self).source@ == old(self).source@,
            final(self).start == old(self).start,
            final(self).line == old(self).line,
            final(self).current == number_end(old(self).source@, old(self).start as int),
            t == (Token {
                ty: TOKEN::NUMBER,
                start: old(self).start,
                length: (final(self).current - old(self).start) as usize,
                line: old(self).line,
            }),
    {
        self.digits();
        let dot = self.peek();
        let after = self.peek_next();
        if dot == Some('.') {
            if let Some(d) = after {
                if '0' <= d && d <= '9' {
                    self.advance();
                    self.digits();
                }
            }
        }
        self.make_token(TOKEN::NUMBER)
    }

    /// Scans the rest of an identifier or keyword whose first character was
    /// just consumed.
    fn identifier(&mut self) -> (t: Token)
        requires
            old(self).cursor_ok(),
            old(self).current == old(self).start + 1,
        ensures
            final(self).cursor_ok(),
            final(self).source@ == old(self).source@,
            final(self).start == old(self).start,
            final(self).line == old(self).line,
            final(self).current == ident_end(old(self).source@, old(self).current as int),
            t == (Token {
                ty: keyword_kind(old(self).source@.subrange(old(self).start as int, final(self).current as int)),
                start: old(self).start,
                length: (final(self).current - old(self).start) as usize,
                line: old(self).line,
            }),
    {
        loop
            invariant
                self.cursor_ok(),
                self.source@ == old(self).source@,
                self.start == old(self).start,
                self.line == old(self).line,
                ident_end(self.source@, self.current as int) == ident_end(
                    old(self).source@,
                    old(self).current as int,
                ),
            ensures
                self.current == ident_end(self.source@, self.current as int),
            decreases self.source@.len() - self.current,
        {
            match self.peek() {
                Some(c) => {
                    if ('a' <= c && c <= 'z') || ('A' <= c && c <= 'Z') || c == '_' || ('0' <= c && c
                        <= '9') {
                        self.advance();
                    } else {
                        break;
                    }
                },
                None => {
                    break;
                },
            }
        }
        let ty = keyword(&self.source, self.start, self.current);
        self.make_token(ty)
    }

    /// The text of `t`'s lexeme.
    pub fn lexeme(&self, t: &Token) -> (r: String)
        requires
            self.wf(),
            t.start + t.length <= self.spec_source().len(),
        ensures
            r@ == self.spec_source().subrange(t.start as int, t.start + t.length),
    {
        let mut out: Vec<char> = Vec::new();
        let end = t.start + t.length;
        let mut i: usize = t.start;
        while i < end
            invariant
                t.start <= i <= end,
                end <= self.source@.len(),
                out@ == self.source@.subrange(t.start as int, i as int),
            decreases end - i,
        {
            out.push(self.source[i]);
            i = i + 1;
        }
        string_of(&out)
    }
}

fn punct(c: char) -> (r: Option<TOKEN>)
    ensures
        r == punct_kind(c),
{
    if c == '(' {
        Some(TOKEN::LEFT_PAREN)
    } else if c == ')' {
        Some(TOKEN::RIGHT_PAREN)
    } else if c == '{' {
        Some(TOKEN::LEFT_BRACE)
    } else if c == '}' {
        Some(TOKEN::RIGHT_BRACE)
    } else if c == ';' {
        Some(TOKEN::SEMICOLON)
    } else if c == ',' {
        Some(TOKEN::COMMA)
    } else if c == '.' {
        Some(TOKEN::DOT)
    } else if c == '-' {
        Some(TOKEN::MINUS)
    } else if c == '+' {
        Some(TOKEN::PLUS)
    } else if c == '/' {
        Some(TOKEN::SLASH)
    } else if c == '*' {
        Some(TOKEN::STAR)
    } else {
        None
    }
}

fn operator(c: char, with_equal: bool) -> (r: TOKEN)
    ensures
        r == operator_kind(c, with_equal),
{
    if c == '!' {
        if with_equal { TOKEN::BANG_EQUAL } else { TOKEN::BANG }
    } else if c == '=' {
        if with_equal { TOKEN::EQUAL_EQUAL } else { TOKEN::EQUAL }
    } else if c == '<' {
        if with_equal { TOKEN::LESS_EQUAL } else { TOKEN::LESS }
    } else {
        if with_equal { TOKEN::GREATER_EQUAL } else { TOKEN::GREATER }
    }
}

/// Whether `s[start..end]` spells `w`.
fn spells(s: &Vec<char>, start: usize, end: usize, w: &str) -> (r: bool)
    requires
        start <= end <= s@.len(),
    ensures
        r == (s@.subrange(start as int, end as int) == w@),
{
    let wc = chars_of(w);
    if end - start != wc.len() {
        return false;
    }
    let mut i: usize = 0;
    while i < wc.len()
        invariant
            wc@ == w@,
            end - start == wc@.len(),
            start <= end <= s@.len(),
            i <= wc@.len(),
            forall|k: int| 0 <= k < i ==> s@[start + k] == wc@[k],
        decreases wc@.len() - i,
    {
        if s[start + i] != wc[i] {
            assert(s@.subrange(start as int, end as int)[i as int] != w@[i as int]);
            return false;
        }
        i = i + 1;
    }
    assert(s@.subrange(start as int, end as int) =~= w@);
    true
}

/// The kind of the identifier-shaped lexeme `s[start..end]`.
fn keyword(s: &Vec<char>, start: usize, end: usize) -> (r: TOKEN)
    requires
        start <= end <= s@.len(),
    ensures
        r == keyword_kind(s@.subrange(start as int, end as int)),
{
    if spells(s, start, end, "and") {
        TOKEN::AND
    } else if spells(s, start, end, "class") {
        TOKEN::CLASS
    } else if spells(s, start, end, "else") {
        TOKEN::ELSE
    } else if spells(s, start, end, "false") {
        TOKEN::FALSE
    } else if spells(s, start, end, "for") {
        TOKEN::FOR
    } else if spells(s, start, end, "fun") {
        TOKEN::FUN
    } else if spells(s, start, end, "if") {
        TOKEN::IF
    } else if spells(s, start, end, "nil") {
        TOKEN::NIL
    } else if spells(s, start, end, "or") {
        TOKEN::OR
    } else if spells(s, start, end, "print") {
        TOKEN::PRINT
    } else if spells(s, start, end, "return") {
        TOKEN::RETURN
    } else if spells(s, start, end, "super") {
        TOKEN::SUPER
    } else if spells(s, start, end, "this") {
        TOKEN::THIS
    } else if spells(s, start, end, "true") {
        TOKEN::TRUE
    } else if spells(s, start, end, "var") {
        TOKEN::VAR
    } else if spells(s, start, end, "while") {
        TOKEN::WHILE
    } else {
        TOKEN::IDENTIFIER
    }
}

} // verus!
