//! Lexical scanner: turns source text into a sequence of classified tokens.
//!
//! The behaviour of the executable scanner is pinned down by a recursive
//! specification: `scan_step` describes how one token (or skipped stretch,
//! or lexical error) is read at a given position, and `scan_from` folds the
//! steps over the whole source. `Scanner::scan_tokens` is proved to produce
//! exactly the tokens and errors of that specification.

use crate::render::{append_u64, dec_i64, dec_nat, i64_text};
use vstd::prelude::*;
use vstd::string::{StrSliceExecFns, StringExecFns};

verus! {

/// The lexical category of a token.
#[derive(Debug, Clone, Copy, PartialEq, Eq, Structural)]
pub enum TokenType {
    LeftParen,
    RightParen,
    LeftBrace,
    RightBrace,
    Comma,
    Dot,
    Plus,
    Minus,
    Star,
    Slash,
    Semicolon,
    Bang,
    BangEqual,
    Equal,
    EqualEqual,
    Greater,
    GreaterEqual,
    Less,
    LessEqual,
    Identifier,
    Stringlit,
    Number,
    And,
    Class,
    Else,
    If,
    Nil,
    Or,
    For,
    Print,
    Return,
    Super,
    True,
    False,
    This,
    Var,
    While,
    Eof,
}

/// The value carried by a literal token. Only the integer variant takes
/// part in arithmetic; the other variants are inert data.
#[derive(Debug, Clone, PartialEq)]
pub enum LiteralValue {
    IntValue(i64),
    StringValue(String),
    IdentifierValue(String),
}

/// The mathematical value of a `LiteralValue`: text as a character sequence.
pub enum SpecLiteral {
    Int(i64),
    Str(Seq<char>),
    Ident(Seq<char>),
}

impl View for LiteralValue {
    type V = SpecLiteral;

    open spec fn view(&self) -> SpecLiteral {
        match self {
            LiteralValue::IntValue(v) => SpecLiteral::Int(*v),
            LiteralValue::StringValue(s) => SpecLiteral::Str(s@),
            LiteralValue::IdentifierValue(s) => SpecLiteral::Ident(s@),
        }
    }
}

impl DeepView for LiteralValue {
    type V = SpecLiteral;

    open spec fn deep_view(&self) -> SpecLiteral {
        self.view()
    }
}

/// A classified, line-stamped unit of lexical text.
#[derive(Debug, Clone)]
pub struct Token {
    pub token_type: TokenType,
    pub lexeme: String,
    pub literal: Option<LiteralValue>,
    pub line_number: i64,
}

/// The mathematical value of a `Token`.
pub struct SpecToken {
    pub kind: TokenType,
    pub lexeme: Seq<char>,
    pub literal: Option<SpecLiteral>,
    pub line: int,
}

impl View for Token {
    type V = SpecToken;

    open spec fn view(&self) -> SpecToken {
        SpecToken {
            kind: self.token_type,
            lexeme: self.lexeme@,
            literal: match self.literal {
                Option::None => Option::None,
                Option::Some(l) => Option::Some(l@),
            },
            line: self.line_number as int,
        }
    }
}

impl DeepView for Token {
    type V = SpecToken;

    open spec fn deep_view(&self) -> SpecToken {
        self.view()
    }
}

// ------------------------------------------------------------------
// Character classes
// ------------------------------------------------------------------

/// An ASCII decimal digit.
pub open spec fn is_digit_char(c: char) -> bool {
    48 <= c as u32 && c as u32 <= 57
}

/// An ASCII letter or underscore: the characters that may begin an
/// identifier.
pub open spec fn is_alpha_char(c: char) -> bool {
    (97 <= c as u32 && c as u32 <= 122) || (65 <= c as u32 && c as u32 <= 90) || c == '_'
}

/// A character that may continue an identifier.
pub open spec fn is_ident_char(c: char) -> bool {
    is_alpha_char(c) || is_digit_char(c)
}

/// The single-character punctuation tokens that never combine with a
/// following character.
pub open spec fn is_single_punct(c: char) -> bool {
    c == '(' || c == ')' || c == '{' || c == '}' || c == ',' || c == '.' || c == '+' || c == '-'
        || c == '*' || c == ';'
}

/// The token kind of a single-character punctuation token.
pub open spec fn single_punct_kind(c: char) -> TokenType
    recommends
        is_single_punct(c),
{
    if c == '(' {
        TokenType::LeftParen
    } else if c == ')' {
        TokenType::RightParen
    } else if c == '{' {
        TokenType::LeftBrace
    } else if c == '}' {
        TokenType::RightBrace
    } else if c == ',' {
        TokenType::Comma
    } else if c == '.' {
        TokenType::Dot
    } else if c == '+' {
        TokenType::Plus
    } else if c == '-' {
        TokenType::Minus
    } else if c == '*' {
        TokenType::Star
    } else {
        TokenType::Semicolon
    }
}

// ------------------------------------------------------------------
// Runs of characters
// ------------------------------------------------------------------

/// The end of the maximal run of decimal digits beginning at `i`.
pub open spec fn digit_run_end(s: Seq<char>, i: int) -> int
    decreases s.len() - i,
    when 0 <= i <= s.len()
{
    if i < s.len() && is_digit_char(s[i]) {
        digit_run_end(s, i + 1)
    } else {
        i
    }
}

/// The end of the maximal run of identifier characters beginning at `i`.
pub open spec fn ident_run_end(s: Seq<char>, i: int) -> int
    decreases s.len() - i,
    when 0 <= i <= s.len()
{
    if i < s.len() && is_ident_char(s[i]) {
        ident_run_end(s, i + 1)
    } else {
        i
    }
}

/// The position of the first newline at or after `i`, or the length of the
/// source if there is none.
pub open spec fn line_end(s: Seq<char>, i: int) -> int
    decreases s.len() - i,
    when 0 <= i <= s.len()
{
    if i < s.len() && s[i] != '\n' {
        line_end(s, i + 1)
    } else {
        i
    }
}

/// The position of the first double quote at or after `i`, or the length of
/// the source if there is none.
pub open spec fn quote_end(s: Seq<char>, i: int) -> int
    decreases s.len() - i,
    when 0 <= i <= s.len()
{
    if i < s.len() && s[i] != '"' {
        quote_end(s, i + 1)
    } else {
        i
    }
}

/// The number of newline characters in `s` between positions `i`
/// (inclusive) and `j` (exclusive).
pub open spec fn newline_count(s: Seq<char>, i: int, j: int) -> int
    recommends
        0 <= i <= j <= s.len(),
    decreases j - i,
    when i <= j
{
    if i < j {
        newline_count(s, i, j - 1) + if s[j - 1] == '\n' {
            1int
        } else {
            0int
        }
    } else {
        0
    }
}

/// The integer value of a run of decimal digits, most significant first.
pub open spec fn digits_value(s: Seq<char>) -> int
    decreases s.len(),
{
    if s.len() == 0 {
        0
    } else {
        digits_value(s.drop_last()) * 10 + (s.last() as u32 - 48)
    }
}

// ------------------------------------------------------------------
// Error messages
// ------------------------------------------------------------------

/// The message for a character no rule recognizes.
pub open spec fn unrecognized_msg(line: int, c: char) -> Seq<char>
    recommends
        line >= 0,
{
    "unrecognized char at line "@ + dec_nat(line as nat) + ": "@ + seq![c]
}

/// The message for a digit run whose value does not fit a signed 64-bit
/// integer.
pub open spec fn big_number_msg(line: int) -> Seq<char>
    recommends
        line >= 0,
{
    "number too large at line "@ + dec_nat(line as nat)
}

/// The message for a string literal that is never closed.
pub open spec fn unterminated_msg() -> Seq<char> {
    "unterminated string"@
}

// ------------------------------------------------------------------
// One scanning step
// ------------------------------------------------------------------

/// What one scanning step contributes: a token, nothing (whitespace or a
/// comment), or a lexical error message.
pub enum ScanItem {
    Emit(SpecToken),
    Pass,
    Reject(Seq<char>),
}

/// The effect of one scanning step: the next unread position, the line
/// counter after the step, and what the step contributed.
pub struct ScanStep {
    pub next: int,
    pub line: int,
    pub item: ScanItem,
}

/// A step that emits a token with no literal value.
pub open spec fn emit_step(s: Seq<char>, i: int, j: int, line: int, kind: TokenType) -> ScanStep {
    ScanStep {
        next: j,
        line,
        item: ScanItem::Emit(
            SpecToken { kind, lexeme: s.subrange(i, j), literal: Option::None, line },
        ),
    }
}

/// A one-character-lookahead step: `two` if the next character is `=`,
/// otherwise `one`.
pub open spec fn pair_step(s: Seq<char>, i: int, line: int, one: TokenType, two: TokenType) -> ScanStep {
    if i + 1 < s.len() && s[i + 1] == '=' {
        emit_step(s, i, i + 2, line, two)
    } else {
        emit_step(s, i, i + 1, line, one)
    }
}

/// One scanning step at position `i` of the source, on line `line`.
pub open spec fn scan_step(s: Seq<char>, i: int, line: int) -> ScanStep
    recommends
        0 <= i < s.len(),
{
    let c = s[i];
    if is_single_punct(c) {
        emit_step(s, i, i + 1, line, single_punct_kind(c))
    } else if c == '!' {
        pair_step(s, i, line, TokenType::Bang, TokenType::BangEqual)
    } else if c == '=' {
        pair_step(s, i, line, TokenType::Equal, TokenType::EqualEqual)
    } else if c == '<' {
        pair_step(s, i, line, TokenType::Less, TokenType::LessEqual)
    } else if c == '>' {
        pair_step(s, i, line, TokenType::Greater, TokenType::GreaterEqual)
    } else if c == '/' {
        if i + 1 < s.len() && s[i + 1] == '/' {
            // a line comment: discard up to (not including) the next newline
            ScanStep { next: line_end(s, i + 2), line, item: ScanItem::Pass }
        } else {
            emit_step(s, i, i + 1, line, TokenType::Slash)
        }
    } else if c == ' ' || c == '\r' || c == '\t' {
        ScanStep { next: i + 1, line, item: ScanItem::Pass }
    } else if c == '\n' {
        ScanStep { next: i + 1, line: line + 1, item: ScanItem::Pass }
    } else if is_digit_char(c) {
        let j = digit_run_end(s, i);
        let lex = s.subrange(i, j);
        let v = digits_value(lex);
        if v <= i64::MAX {
            ScanStep {
                next: j,
                line,
                item: ScanItem::Emit(
                    SpecToken {
                        kind: TokenType::Number,
                        lexeme: lex,
                        literal: Option::Some(SpecLiteral::Int(v as i64)),
                        line,
                    },
                ),
            }
        } else {
            ScanStep { next: j, line, item: ScanItem::Reject(big_number_msg(line)) }
        }
    } else if is_alpha_char(c) {
        let j = ident_run_end(s, i);
        let lex = s.subrange(i, j);
        let kind = if lex == "var"@ {
            TokenType::Var
        } else {
            TokenType::Identifier
        };
        emit_step(s, i, j, line, kind)
    } else if c == '"' {
        let j = quote_end(s, i + 1);
        if j < s.len() {
            // the token is stamped with the line of its opening quote; the
            // line counter itself advances past the embedded newlines
            ScanStep {
                next: j + 1,
                line: line + newline_count(s, i + 1, j),
                item: ScanItem::Emit(
                    SpecToken {
                        kind: TokenType::Stringlit,
                        lexeme: s.subrange(i, j + 1),
                        literal: Option::Some(SpecLiteral::Str(s.subrange(i + 1, j))),
                        line,
                    },
                ),
            }
        } else {
            ScanStep {
                next: s.len() as int,
                line: line + newline_count(s, i + 1, s.len() as int),
                item: ScanItem::Reject(unterminated_msg()),
            }
        }
    } else {
        ScanStep { next: i + 1, line, item: ScanItem::Reject(unrecognized_msg(line, c)) }
    }
}

// ------------------------------------------------------------------
// Bounds of the pieces above
// ------------------------------------------------------------------

proof fn lemma_digit_run_end_bounds(s: Seq<char>, i: int)
    requires
        0 <= i <= s.len(),
    ensures
        i <= digit_run_end(s, i) <= s.len(),
        forall|j: int| i <= j < digit_run_end(s, i) ==> is_digit_char(s[j]),
        digit_run_end(s, i) < s.len() ==> !is_digit_char(s[digit_run_end(s, i)]),
    decreases s.len() - i,
{
    if i < s.len() && is_digit_char(s[i]) {
        lemma_digit_run_end_bounds(s, i + 1);
    }
}

proof fn lemma_ident_run_end_bounds(s: Seq<char>, i: int)
    requires
        0 <= i <= s.len(),
    ensures
        i <= ident_run_end(s, i) <= s.len(),
        forall|j: int| i <= j < ident_run_end(s, i) ==> is_ident_char(s[j]),
        ident_run_end(s, i) < s.len() ==> !is_ident_char(s[ident_run_end(s, i)]),
    decreases s.len() - i,
{
    if i < s.len() && is_ident_char(s[i]) {
        lemma_ident_run_end_bounds(s, i + 1);
    }
}

pub proof fn lemma_line_end_bounds(s: Seq<char>, i: int)
    requires
        0 <= i <= s.len(),
    ensures
        i <= line_end(s, i) <= s.len(),
        forall|j: int| i <= j < line_end(s, i) ==> s[j] != '\n',
        line_end(s, i) < s.len() ==> s[line_end(s, i)] == '\n',
    decreases s.len() - i,
{
    if i < s.len() && s[i] != '\n' {
        lemma_line_end_bounds(s, i + 1);
    }
}

pub proof fn lemma_quote_end_bounds(s: Seq<char>, i: int)
    requires
        0 <= i <= s.len(),
    ensures
        i <= quote_end(s, i) <= s.len(),
        forall|j: int| i <= j < quote_end(s, i) ==> s[j] != '"',
        quote_end(s, i) < s.len() ==> s[quote_end(s, i)] == '"',
    decreases s.len() - i,
{
    if i < s.len() && s[i] != '"' {
        lemma_quote_end_bounds(s, i + 1);
    }
}

proof fn lemma_newline_count_bounds(s: Seq<char>, i: int, j: int)
    requires
        i <= j,
    ensures
        0 <= newline_count(s, i, j) <= j - i,
    decreases j - i,
{
    if i < j {
        lemma_newline_count_bounds(s, i, j - 1);
    }
}

/// One step always makes progress and stays inside the source, and moves
/// the line counter forward by at most the number of characters consumed.
pub proof fn lemma_scan_step_bounds(s: Seq<char>, i: int, line: int)
    requires
        0 <= i < s.len(),
    ensures
        i < scan_step(s, i, line).next <= s.len(),
        line <= scan_step(s, i, line).line <= line + (scan_step(s, i, line).next - i),
{
    let c = s[i];
    if is_digit_char(c) {
        lemma_digit_run_end_bounds(s, i);
        assert(digit_run_end(s, i) == digit_run_end(s, i + 1));
    } else if is_alpha_char(c) {
        lemma_ident_run_end_bounds(s, i);
        assert(ident_run_end(s, i) == ident_run_end(s, i + 1));
    } else if !is_single_punct(c) && c == '/' && i + 1 < s.len() && s[i + 1] == '/' {
        lemma_line_end_bounds(s, i + 2);
    } else if !is_single_punct(c) && c == '"' {
        lemma_quote_end_bounds(s, i + 1);
        lemma_newline_count_bounds(s, i + 1, quote_end(s, i + 1));
        lemma_newline_count_bounds(s, i + 1, s.len() as int);
    }
}

// ------------------------------------------------------------------
// The whole scan
// ------------------------------------------------------------------

/// The outcome of scanning: the emitted tokens (without the trailing
/// end-of-input token), the lexical error messages in source order, and the
/// final line counter.
pub struct ScanOut {
    pub tokens: Seq<SpecToken>,
    pub errors: Seq<Seq<char>>,
    pub line: int,
}

/// Scanning the source from position `i` on line `line` to the end.
pub open spec fn scan_from(s: Seq<char>, i: int, line: int) -> ScanOut
    decreases s.len() - i,
    when 0 <= i <= s.len()
    via scan_from_decreases
{
    if i >= s.len() {
        ScanOut { tokens: Seq::empty(), errors: Seq::empty(), line }
    } else {
        let step = scan_step(s, i, line);
        let rest = scan_from(s, step.next, step.line);
        match step.item {
            ScanItem::Emit(t) => ScanOut {
                tokens: seq![t] + rest.tokens,
                errors: rest.errors,
                line: rest.line,
            },
            ScanItem::Pass => rest,
            ScanItem::Reject(m) => ScanOut {
                tokens: rest.tokens,
                errors: seq![m] + rest.errors,
                line: rest.line,
            },
        }
    }
}

#[via_fn]
proof fn scan_from_decreases(s: Seq<char>, i: int, line: int) {
    if 0 <= i < s.len() {
        lemma_scan_step_bounds(s, i, line);
    }
}

/// The end-of-input token: empty lexeme, no literal, stamped with the final
/// line counter.
pub open spec fn eof_spec_token(line: int) -> SpecToken {
    SpecToken { kind: TokenType::Eof, lexeme: Seq::empty(), literal: Option::None, line }
}

/// Scanning a whole source, from its start on line 1.
pub open spec fn scan_output(s: Seq<char>) -> ScanOut {
    scan_from(s, 0, 1)
}

/// The full token sequence of a source: the scanned tokens followed by
/// exactly one end-of-input token.
pub open spec fn scan_tokens_spec(s: Seq<char>) -> Seq<SpecToken> {
    scan_output(s).tokens.push(eof_spec_token(scan_output(s).line))
}

/// The lexical error messages of a source, in order.
pub open spec fn scan_errors_spec(s: Seq<char>) -> Seq<Seq<char>> {
    scan_output(s).errors
}

/// Error messages joined by newlines into a single message.
pub open spec fn join_newline(errs: Seq<Seq<char>>) -> Seq<char>
    decreases errs.len(),
{
    if errs.len() == 0 {
        Seq::empty()
    } else if errs.len() == 1 {
        errs[0]
    } else {
        errs[0] + seq!['\n'] + join_newline(errs.drop_first())
    }
}

/// Joining one more message appends a newline and the message (or is the
/// message itself when there was none).
proof fn lemma_join_newline_push(errs: Seq<Seq<char>>, e: Seq<char>)
    ensures
        join_newline(errs.push(e)) == if errs.len() == 0 {
            e
        } else {
            join_newline(errs) + seq!['\n'] + e
        },
    decreases errs.len(),
{
    if errs.len() == 0 {
        assert(errs.push(e)[0] == e);
        assert(errs.push(e).len() == 1);
    } else {
        assert(errs.push(e).drop_first() =~= errs.drop_first().push(e));
        lemma_join_newline_push(errs.drop_first(), e);
        if errs.len() == 1 {
            assert(join_newline(errs) == errs[0]);
        }
    }
}

// ------------------------------------------------------------------
// Digit runs and their values
// ------------------------------------------------------------------

/// The value of a digit run is never negative.
proof fn lemma_digits_value_nonneg(s: Seq<char>)
    requires
        forall|i: int| 0 <= i < s.len() ==> is_digit_char(s[i]),
    ensures
        digits_value(s) >= 0,
    decreases s.len(),
{
    if s.len() > 0 {
        lemma_digits_value_nonneg(s.drop_last());
    }
}

/// The value of a digit run is at least the value of any of its prefixes.
proof fn lemma_digits_value_prefix(s: Seq<char>, k: int)
    requires
        0 <= k <= s.len(),
        forall|i: int| 0 <= i < s.len() ==> is_digit_char(s[i]),
    ensures
        digits_value(s.subrange(0, k)) <= digits_value(s),
    decreases s.len() - k,
{
    if k < s.len() {
        assert(s.subrange(0, k + 1).drop_last() =~= s.subrange(0, k));
        lemma_digits_value_nonneg(s.subrange(0, k));
        assert(digits_value(s.subrange(0, k + 1)) == digits_value(s.subrange(0, k)) * 10 + (
        s[k] as u32 - 48));
        lemma_digits_value_prefix(s, k + 1);
    } else {
        assert(s.subrange(0, s.len() as int) =~= s);
    }
}

// ------------------------------------------------------------------
// Tokens
// ------------------------------------------------------------------

/// The name of a token kind.
pub open spec fn kind_text(k: TokenType) -> Seq<char> {
    match k {
        TokenType::LeftParen => "LeftParen"@,
        TokenType::RightParen => "RightParen"@,
        TokenType::LeftBrace => "LeftBrace"@,
        TokenType::RightBrace => "RightBrace"@,
        TokenType::Comma => "Comma"@,
        TokenType::Dot => "Dot"@,
        TokenType::Plus => "Plus"@,
        TokenType::Minus => "Minus"@,
        TokenType::Star => "Star"@,
        TokenType::Slash => "Slash"@,
        TokenType::Semicolon => "Semicolon"@,
        TokenType::Bang => "Bang"@,
        TokenType::BangEqual => "BangEqual"@,
        TokenType::Equal => "Equal"@,
        TokenType::EqualEqual => "EqualEqual"@,
        TokenType::Greater => "Greater"@,
        TokenType::GreaterEqual => "GreaterEqual"@,
        TokenType::Less => "Less"@,
        TokenType::LessEqual => "LessEqual"@,
        TokenType::Identifier => "Identifier"@,
        TokenType::Stringlit => "Stringlit"@,
        TokenType::Number => "Number"@,
        TokenType::And => "And"@,
        TokenType::Class => "Class"@,
        TokenType::Else => "Else"@,
        TokenType::If => "If"@,
        TokenType::Nil => "Nil"@,
        TokenType::Or => "Or"@,
        TokenType::For => "For"@,
        TokenType::Print => "Print"@,
        TokenType::Return => "Return"@,
        TokenType::Super => "Super"@,
        TokenType::True => "True"@,
        TokenType::False => "False"@,
        TokenType::This => "This"@,
        TokenType::Var => "Var"@,
        TokenType::While => "While"@,
        TokenType::Eof => "Eof"@,
    }
}

/// The text of a literal value: the decimal digits of an integer, or the
/// carried text itself.
pub open spec fn lit_text(v: SpecLiteral) -> Seq<char> {
    match v {
        SpecLiteral::Int(n) => dec_i64(n),
        SpecLiteral::Str(s) => s,
        SpecLiteral::Ident(s) => s,
    }
}

/// The text of a token's optional literal value, variant name included;
/// carried text is quoted.
pub open spec fn literal_opt_text(l: Option<SpecLiteral>) -> Seq<char> {
    match l {
        Option::None => "None"@,
        Option::Some(SpecLiteral::Int(n)) => "Some(IntValue("@ + dec_i64(n) + "))"@,
        Option::Some(SpecLiteral::Str(s)) => "Some(StringValue(\""@ + s + "\"))"@,
        Option::Some(SpecLiteral::Ident(s)) => "Some(IdentifierValue(\""@ + s + "\"))"@,
    }
}

/// The display text of a whole token: kind, lexeme and literal, separated
/// by single spaces.
pub open spec fn token_text(t: SpecToken) -> Seq<char> {
    kind_text(t.kind) + " "@ + t.lexeme + " "@ + literal_opt_text(t.literal)
}

/// The name of a token kind, as text.
fn kind_str(k: TokenType) -> (r: &'static str)
    ensures
        r@ == kind_text(k),
{
    match k {
        TokenType::LeftParen => "LeftParen",
        TokenType::RightParen => "RightParen",
        TokenType::LeftBrace => "LeftBrace",
        TokenType::RightBrace => "RightBrace",
        TokenType::Comma => "Comma",
        TokenType::Dot => "Dot",
        TokenType::Plus => "Plus",
        TokenType::Minus => "Minus",
        TokenType::Star => "Star",
        TokenType::Slash => "Slash",
        TokenType::Semicolon => "Semicolon",
        TokenType::Bang => "Bang",
        TokenType::BangEqual => "BangEqual",
        TokenType::Equal => "Equal",
        TokenType::EqualEqual => "EqualEqual",
        TokenType::Greater => "Greater",
        TokenType::GreaterEqual => "GreaterEqual",
        TokenType::Less => "Less",
        TokenType::LessEqual => "LessEqual",
        TokenType::Identifier => "Identifier",
        TokenType::Stringlit => "Stringlit",
        TokenType::Number => "Number",
        TokenType::And => "And",
        TokenType::Class => "Class",
        TokenType::Else => "Else",
        TokenType::If => "If",
        TokenType::Nil => "Nil",
        TokenType::Or => "Or",
        TokenType::For => "For",
        TokenType::Print => "Print",
        TokenType::Return => "Return",
        TokenType::Super => "Super",
        TokenType::True => "True",
        TokenType::False => "False",
        TokenType::This => "This",
        TokenType::Var => "Var",
        TokenType::While => "While",
        TokenType::Eof => "Eof",
    }
}

/// The text of a literal value, as a string.
pub fn literal_text(v: &LiteralValue) -> (r: String)
    ensures
        r@ == lit_text(v@),
{
    match v {
        LiteralValue::IntValue(n) => i64_text(*n),
        LiteralValue::StringValue(s) => s.clone(),
        LiteralValue::IdentifierValue(s) => s.clone(),
    }
}

impl Token {
    /// A token from its parts.
    pub fn new(token_type: TokenType, lexeme: String, literal: Option<LiteralValue>, line_number: i64) -> (r: Self)
        ensures
            r.token_type == token_type,
            r.lexeme == lexeme,
            r.literal == literal,
            r.line_number == line_number,
    {
        Self { token_type, lexeme, literal, line_number }
    }

    /// The display text of the token: kind, lexeme and literal.
    pub fn to_string(&self) -> (r: String)
        ensures
            r@ == token_text(self@),
    {
        let mut s = kind_str(self.token_type).to_owned();
        s.append(" ");
        s.append(self.lexeme.as_str());
        s.append(" ");
        match &self.literal {
            Option::None => {
                s.append("None");
            }
            Option::Some(LiteralValue::IntValue(n)) => {
                s.append("Some(IntValue(");
                let digits = i64_text(*n);
                s.append(digits.as_str());
                s.append("))");
            }
            Option::Some(LiteralValue::StringValue(t)) => {
                s.append("Some(StringValue(\"");
                s.append(t.as_str());
                s.append("\"))");
            }
            Option::Some(LiteralValue::IdentifierValue(t)) => {
                s.append("Some(IdentifierValue(\"");
                s.append(t.as_str());
                s.append("\"))");
            }
        }
        proof {
            assert(s@ =~= token_text(self@));
        }
        s
    }
}

// ------------------------------------------------------------------
// The executable scanner
// ------------------------------------------------------------------

/// Consumes a source text and produces its tokens, tracking line numbers
/// and accumulating lexical errors.
pub struct Scanner {
    source: String,
    tokens: Vec<Token>,
    start: usize,
    current: usize,
    line: i64,
}

/// The mathematical state of a `Scanner`.
pub struct SpecScanner {
    pub source: Seq<char>,
    pub tokens: Seq<SpecToken>,
    pub start: int,
    pub current: int,
    pub line: int,
}

impl View for Scanner {
    type V = SpecScanner;

    closed spec fn view(&self) -> SpecScanner {
        SpecScanner {
            source: self.source@,
            tokens: self.tokens.deep_view(),
            start: self.start as int,
            current: self.current as int,
            line: self.line as int,
        }
    }
}

impl Scanner {
    /// The scanner's cursor state is sound: the cursor is inside the
    /// source, the line counter grew by at most one per consumed
    /// character, and the source is short enough for the line counter
    /// to fit its type.
    pub open spec fn wf(&self) -> bool {
        &&& self@.start <= self@.current <= self@.source.len()
        &&& 1 <= self@.line <= self@.current + 1
        &&& self@.source.len() < i64::MAX
        &&& self@.source.len() <= usize::MAX
    }

    /// A scanner at the start of the given source.
    pub fn new(source: &str) -> (r: Self)
        requires
            source@.len() < i64::MAX,
        ensures
            r.wf(),
            r@.source == source@,
            r@.tokens == Seq::<SpecToken>::empty(),
            r@.start == 0,
            r@.current == 0,
            r@.line == 1,
    {
        let n: usize = source.unicode_len();
        let r = Self {
            source: source.to_owned(),
            tokens: Vec::new(),
            start: 0,
            current: 0,
            line: 1,
        };
        proof {
            assert(n as nat == source@.len());
            assert(r@.tokens =~= Seq::<SpecToken>::empty());
        }
        r
    }

    /// Whether the cursor has consumed the whole source.
    fn is_at_end(&self) -> (r: bool)
        ensures
            r == (self@.current >= self@.source.len()),
    {
        self.current >= self.source.as_str().unicode_len()
    }

    /// The next unread character, or the null character at the end.
    fn peek(&self) -> (c: char)
        requires
            self.wf(),
        ensures
            c == (if self@.current < self@.source.len() {
                self@.source[self@.current]
            } else {
                '\0'
            }),
    {
        if self.current >= self.source.as_str().unicode_len() {
            '\0'
        } else {
            self.source.as_str().get_char(self.current)
        }
    }

    /// Consumes and returns the next character.
    fn advance(&mut self) -> (c: char)
        requires
            old(self).wf(),
            old(self)@.current < old(self)@.source.len(),
        ensures
            final(self).wf(),
            c == old(self)@.source[old(self)@.current],
            final(self)@ == (SpecScanner { current: old(self)@.current + 1, ..old(self)@ }),
    {
        let c = self.source.as_str().get_char(self.current);
        self.current = self.current + 1;
        c
    }

    /// Consumes the next character exactly when it equals `expected`.
    fn char_match(&mut self, expected: char) -> (r: bool)
        requires
            old(self).wf(),
        ensures
            final(self).wf(),
            r == (old(self)@.current < old(self)@.source.len() && old(self)@.source[old(
                self,
            )@.current] == expected),
            final(self)@ == (SpecScanner {
                current: old(self)@.current + if r {
                    1int
                } else {
                    0int
                },
                ..old(self)@
            }),
    {
        if self.current >= self.source.as_str().unicode_len()
            || self.source.as_str().get_char(self.current) != expected {
            return false;
        }
        self.current = self.current + 1;
        true
    }

    /// Scans the whole remaining source. On success the result is every
    /// token the specification emits, ending with exactly one end-of-input
    /// token, and the scanner's own list is left empty. If any lexical
    /// error occurred, the result is the error messages joined by newlines,
    /// and the tokens (end-of-input included) stay in the scanner.
    pub fn scan_tokens(&mut self) -> (r: Result<Vec<Token>, String>)
        requires
            old(self).wf(),
        ensures
            final(self).wf(),
            ({
                let done = scan_from(old(self)@.source, old(self)@.current, old(self)@.line);
                let all = old(self)@.tokens + done.tokens + seq![eof_spec_token(done.line)];
                match r {
                    Ok(tokens) => {
                        &&& done.errors.len() == 0
                        &&& tokens.deep_view() == all
                        &&& final(self)@.tokens == Seq::<SpecToken>::empty()
                    },
                    Err(m) => {
                        &&& done.errors.len() > 0
                        &&& m@ == join_newline(done.errors)
                        &&& final(self)@.tokens == all
                    },
                }
            }),
    {
        let ghost src = self@.source;
        let ghost c0 = self@.current;
        let ghost l0 = self@.line;
        let ghost t0 = self@.tokens;
        let ghost done = scan_from(src, c0, l0);
        let mut errors: Vec<String> = Vec::new();
        proof {
            assert(errors.deep_view() =~= Seq::<Seq<char>>::empty());
            assert(errors.deep_view() + done.errors =~= done.errors);
        }
        while !self.is_at_end()
            invariant
                self.wf(),
                src == old(self)@.source,
                c0 == old(self)@.current,
                l0 == old(self)@.line,
                t0 == old(self)@.tokens,
                done == scan_from(src, c0, l0),
                0 <= c0 <= src.len(),
                1 <= l0,
                self@.source == src,
                self@.tokens + scan_from(src, self@.current, self@.line).tokens == t0
                    + done.tokens,
                errors.deep_view() + scan_from(src, self@.current, self@.line).errors
                    == done.errors,
                scan_from(src, self@.current, self@.line).line == done.line,
            decreases src.len() - self@.current,
        {
            self.start = self.current;
            let ghost cur = self@.current;
            let ghost line = self@.line;
            let ghost step = scan_step(src, cur, line);
            proof {
                lemma_scan_step_bounds(src, cur, line);
            }
            let ghost rest = scan_from(src, step.next, step.line);
            match self.scan_token() {
                Ok(()) => {
                    proof {
                        match step.item {
                            ScanItem::Emit(t) => {
                                assert(self@.tokens + rest.tokens =~= (self@.tokens.drop_last())
                                    + (seq![t] + rest.tokens));
                            }
                            _ => {}
                        }
                    }
                }
                Err(msg) => {
                    let ghost m = step.item->Reject_0;
                    errors.push(msg);
                    proof {
                        assert(errors.deep_view() =~= errors.deep_view().drop_last().push(m));
                        assert(errors.deep_view().drop_last().push(m) + rest.errors =~= errors
                            .deep_view().drop_last() + (seq![m] + rest.errors));
                    }
                }
            }
        }
        let eof = Token::new(TokenType::Eof, String::new(), Option::None, self.line);
        self.tokens.push(eof);
        proof {
            assert(self@.tokens =~= t0 + done.tokens + seq![eof_spec_token(done.line)]);
            assert(errors.deep_view() =~= done.errors);
        }
        if errors.len() > 0 {
            let ghost errs = errors.deep_view();
            let mut joined = String::new();
            let mut idx: usize = 0;
            proof {
                assert(errs.subrange(0, 0) =~= Seq::<Seq<char>>::empty());
            }
            while idx < errors.len()
                invariant
                    0 <= idx <= errors.len(),
                    errs == errors.deep_view(),
                    joined@ == join_newline(errs.subrange(0, idx as int)),
                decreases errors.len() - idx,
            {
                proof {
                    reveal_strlit("\n");
                    assert(errs.subrange(0, idx + 1) =~= errs.subrange(0, idx as int).push(
                        errs[idx as int],
                    ));
                    lemma_join_newline_push(errs.subrange(0, idx as int), errs[idx as int]);
                }
                if idx > 0 {
                    joined.append("\n");
                }
                joined.append(errors[idx].as_str());
                idx = idx + 1;
            }
            proof {
                assert(errs.subrange(0, errs.len() as int) =~= errs);
            }
            return Err(joined);
        }
        let mut result: Vec<Token> = Vec::new();
        core::mem::swap(&mut result, &mut self.tokens);
        proof {
            assert(final(self)@.tokens =~= Seq::<SpecToken>::empty());
        }
        Ok(result)
    }

    /// Scans one token beginning at `current`, which must equal `start`:
    /// the cursor, line counter and token list change exactly as one
    /// `scan_step` of the specification says.
    fn scan_token(&mut self) -> (r: Result<(), String>)
        requires
            old(self).wf(),
            old(self)@.current < old(self)@.source.len(),
            old(self)@.start == old(self)@.current,
        ensures
            final(self).wf(),
            final(self)@.source == old(self)@.source,
            final(self)@.start == old(self)@.start,
            ({
                let step = scan_step(old(self)@.source, old(self)@.current, old(self)@.line);
                &&& final(self)@.current == step.next
                &&& final(self)@.line == step.line
                &&& match step.item {
                    ScanItem::Emit(t) => r is Ok && final(self)@.tokens == old(self)@.tokens.push(
                        t,
                    ),
                    ScanItem::Pass => r is Ok && final(self)@.tokens == old(self)@.tokens,
                    ScanItem::Reject(m) => (r matches Err(e) && e@ == m) && final(self)@.tokens
                        == old(self)@.tokens,
                }
            }),
    {
        let ghost src = self@.source;
        let ghost i = self@.current;
        let c = self.advance();
        match c {
            '(' => {
                self.add_token(TokenType::LeftParen);
                Ok(())
            }
            ')' => {
                self.add_token(TokenType::RightParen);
                Ok(())
            }
            '{' => {
                self.add_token(TokenType::LeftBrace);
                Ok(())
            }
            '}' => {
                self.add_token(TokenType::RightBrace);
                Ok(())
            }
            ',' => {
                self.add_token(TokenType::Comma);
                Ok(())
            }
            '.' => {
                self.add_token(TokenType::Dot);
                Ok(())
            }
            '+' => {
                self.add_token(TokenType::Plus);
                Ok(())
            }
            '-' => {
                self.add_token(TokenType::Minus);
                Ok(())
            }
            '*' => {
                self.add_token(TokenType::Star);
                Ok(())
            }
            ';' => {
                self.add_token(TokenType::Semicolon);
                Ok(())
            }
            '!' => {
                let token_type = if self.char_match('=') {
                    TokenType::BangEqual
                } else {
                    TokenType::Bang
                };
                self.add_token(token_type);
                Ok(())
            }
            '=' => {
                let token_type = if self.char_match('=') {
                    TokenType::EqualEqual
                } else {
                    TokenType::Equal
                };
                self.add_token(token_type);
                Ok(())
            }
            '<' => {
                let token_type = if self.char_match('=') {
                    TokenType::LessEqual
                } else {
                    TokenType::Less
                };
                self.add_token(token_type);
                Ok(())
            }
            '>' => {
                let token_type = if self.char_match('=') {
                    TokenType::GreaterEqual
                } else {
                    TokenType::Greater
                };
                self.add_token(token_type);
                Ok(())
            }
            '/' => {
                if self.char_match('/') {
                    // a line comment runs to the end of the line
                    proof {
                        lemma_line_end_bounds(src, i + 2);
                    }
                    while !self.is_at_end() && self.peek() != '\n'
                        invariant
                            self.wf(),
                            src == old(self)@.source,
                            self@.source == src,
                            self@.start == old(self)@.start,
                            self@.tokens == old(self)@.tokens,
                            self@.line == old(self)@.line,
                            i + 2 <= self@.current <= src.len(),
                            line_end(src, i + 2) == line_end(src, self@.current),
                        decreases src.len() - self@.current,
                    {
                        let _c = self.advance();
                    }
                    Ok(())
                } else {
                    self.add_token(TokenType::Slash);
                    Ok(())
                }
            }
            ' ' | '\r' | '\t' => Ok(()),
            '\n' => {
                self.line = self.line + 1;
                Ok(())
            }
            '"' => self.string(),
            _ => {
                if is_digit(c) {
                    self.number()
                } else if is_alpha(c) {
                    self.identifier();
                    Ok(())
                } else {
                    let mut m = "unrecognized char at line ".to_owned();
                    append_u64(&mut m, self.line as u64);
                    m.append(": ");
                    let cs = self.source.as_str().substring_char(self.current - 1, self.current);
                    m.append(cs);
                    proof {
                        assert(src.subrange(i, i + 1) =~= seq![src[i]]);
                        assert(m@ =~= unrecognized_msg(old(self)@.line, src[i]));
                    }
                    Err(m)
                }
            }
        }
    }

    /// Appends a token whose lexeme is the text between `start` and
    /// `current`, carrying the given literal value and stamped with the
    /// given line (the line of the token's first character).
    fn add_token_lit(&mut self, token_type: TokenType, literal: Option<LiteralValue>, line_number: i64)
        requires
            old(self).wf(),
        ensures
            final(self).wf(),
            final(self)@ == (SpecScanner {
                tokens: old(self)@.tokens.push(
                    SpecToken {
                        kind: token_type,
                        lexeme: old(self)@.source.subrange(old(self)@.start, old(self)@.current),
                        literal: literal.deep_view(),
                        line: line_number as int,
                    },
                ),
                ..old(self)@
            }),
    {
        let text = self.source.as_str().substring_char(self.start, self.current).to_owned();
        let ghost expected = SpecToken {
            kind: token_type,
            lexeme: self@.source.subrange(self@.start, self@.current),
            literal: literal.deep_view(),
            line: line_number as int,
        };
        let tok = Token::new(token_type, text, literal, line_number);
        self.tokens.push(tok);
        proof {
            assert(final(self)@.tokens =~= old(self)@.tokens.push(expected));
        }
    }

    /// Scans the rest of a number token. The first digit, at `start`, has
    /// already been consumed. A digit run whose value does not fit a signed
    /// 64-bit integer is a lexical error.
    fn number(&mut self) -> (r: Result<(), String>)
        requires
            old(self).wf(),
            old(self)@.current == old(self)@.start + 1,
            old(self)@.start < old(self)@.source.len(),
            is_digit_char(old(self)@.source[old(self)@.start]),
        ensures
            final(self).wf(),
            ({
                let src = old(self)@.source;
                let start = old(self)@.start;
                let j = digit_run_end(src, start);
                let lex = src.subrange(start, j);
                &&& final(self)@.source == src
                &&& final(self)@.start == start
                &&& final(self)@.current == j
                &&& final(self)@.line == old(self)@.line
                &&& if digits_value(lex) <= i64::MAX {
                    &&& r is Ok
                    &&& final(self)@.tokens == old(self)@.tokens.push(
                        SpecToken {
                            kind: TokenType::Number,
                            lexeme: lex,
                            literal: Option::Some(SpecLiteral::Int(digits_value(lex) as i64)),
                            line: old(self)@.line,
                        },
                    )
                } else {
                    &&& (r matches Err(m) && m@ == big_number_msg(old(self)@.line))
                    &&& final(self)@.tokens == old(self)@.tokens
                }
            }),
    {
        let ghost src = self@.source;
        let ghost start = self@.start;
        proof {
            lemma_digit_run_end_bounds(src, start);
        }
        while !self.is_at_end() && is_digit(self.peek())
            invariant
                self.wf(),
                self@.source == src,
                self@.start == start,
                self@.tokens == old(self)@.tokens,
                self@.line == old(self)@.line,
                start < self@.current <= src.len(),
                digit_run_end(src, start) == digit_run_end(src, self@.current),
            decreases src.len() - self@.current,
        {
            let _c = self.advance();
        }
        proof {
            lemma_digit_run_end_bounds(src, start);
        }
        let ghost j = digit_run_end(src, start);
        let ghost lex = src.subrange(start, j);
        let end: usize = self.current;
        let mut value: i64 = 0;
        let mut k: usize = self.start;
        proof {
            assert(src.subrange(start, start) =~= Seq::<char>::empty());
        }
        while k < end
            invariant
                self.wf(),
                src == old(self)@.source,
                start == old(self)@.start,
                self@.source == src,
                self@.start == start,
                self@.current == j,
                self@.tokens == old(self)@.tokens,
                self@.line == old(self)@.line,
                end == j,
                j == digit_run_end(src, start),
                lex == src.subrange(start, j),
                forall|i: int| start <= i < j ==> is_digit_char(src[i]),
                start <= k as int <= j,
                0 <= value,
                value == digits_value(src.subrange(start, k as int)),
            decreases end - k,
        {
            let c = self.source.as_str().get_char(k);
            let d: u32 = (c as u32) - 48;
            proof {
                assert(src.subrange(start, k + 1).drop_last() =~= src.subrange(start, k as int));
                assert(digits_value(src.subrange(start, k + 1)) == value * 10 + d);
            }
            let next_value = match value.checked_mul(10) {
                Option::Some(v10) => v10.checked_add(d as i64),
                Option::None => Option::None,
            };
            match next_value {
                Option::Some(v) => {
                    value = v;
                }
                Option::None => {
                    proof {
                        assert(digits_value(src.subrange(start, k + 1)) > i64::MAX);
                        lemma_digits_value_prefix(lex, k + 1 - start);
                        assert(lex.subrange(0, k + 1 - start) =~= src.subrange(start, k + 1));
                        assert(digits_value(lex) > i64::MAX);
                    }
                    let mut m = "number too large at line ".to_owned();
                    append_u64(&mut m, self.line as u64);
                    return Err(m);
                }
            }
            k = k + 1;
        }
        proof {
            assert(src.subrange(start, j) == lex);
        }
        let line = self.line;
        self.add_token_lit(TokenType::Number, Option::Some(LiteralValue::IntValue(value)), line);
        Ok(())
    }

    /// Scans the rest of an identifier or keyword. The first character, at
    /// `start`, has already been consumed.
    fn identifier(&mut self)
        requires
            old(self).wf(),
            old(self)@.current == old(self)@.start + 1,
            old(self)@.start < old(self)@.source.len(),
            is_ident_char(old(self)@.source[old(self)@.start]),
        ensures
            final(self).wf(),
            ({
                let src = old(self)@.source;
                let start = old(self)@.start;
                let j = ident_run_end(src, start);
                let lex = src.subrange(start, j);
                &&& final(self)@.source == src
                &&& final(self)@.start == start
                &&& final(self)@.current == j
                &&& final(self)@.line == old(self)@.line
                &&& final(self)@.tokens == old(self)@.tokens.push(
                    SpecToken {
                        kind: if lex == "var"@ {
                            TokenType::Var
                        } else {
                            TokenType::Identifier
                        },
                        lexeme: lex,
                        literal: Option::None,
                        line: old(self)@.line,
                    },
                )
            }),
    {
        let ghost src = self@.source;
        let ghost start = self@.start;
        proof {
            lemma_ident_run_end_bounds(src, start);
        }
        while !self.is_at_end() && is_ident(self.peek())
            invariant
                self.wf(),
                self@.source == src,
                self@.start == start,
                self@.tokens == old(self)@.tokens,
                self@.line == old(self)@.line,
                start < self@.current <= src.len(),
                ident_run_end(src, start) == ident_run_end(src, self@.current),
            decreases src.len() - self@.current,
        {
            let _c = self.advance();
        }
        let text = self.source.as_str().substring_char(self.start, self.current).to_owned();
        let keyword = "var".to_owned();
        let token_type = if text == keyword {
            TokenType::Var
        } else {
            TokenType::Identifier
        };
        self.add_token(token_type);
    }

    /// Scans the rest of a string literal. The opening quote, at `start`,
    /// has already been consumed. Reaching the end of the source before a
    /// closing quote is a lexical error.
    fn string(&mut self) -> (r: Result<(), String>)
        requires
            old(self).wf(),
            old(self)@.current == old(self)@.start + 1,
            old(self)@.start < old(self)@.source.len(),
            old(self)@.source[old(self)@.start] == '"',
        ensures
            final(self).wf(),
            ({
                let src = old(self)@.source;
                let start = old(self)@.start;
                let j = quote_end(src, start + 1);
                &&& final(self)@.source == src
                &&& final(self)@.start == start
                &&& if j < src.len() {
                    &&& r is Ok
                    &&& final(self)@.current == j + 1
                    &&& final(self)@.line == old(self)@.line + newline_count(src, start + 1, j)
                    &&& final(self)@.tokens == old(self)@.tokens.push(
                        SpecToken {
                            kind: TokenType::Stringlit,
                            lexeme: src.subrange(start, j + 1),
                            literal: Option::Some(SpecLiteral::Str(src.subrange(start + 1, j))),
                            line: old(self)@.line,
                        },
                    )
                } else {
                    &&& (r matches Err(m) && m@ == unterminated_msg())
                    &&& final(self)@.current == src.len()
                    &&& final(self)@.line == old(self)@.line + newline_count(
                        src,
                        start + 1,
                        src.len() as int,
                    )
                    &&& final(self)@.tokens == old(self)@.tokens
                }
            }),
    {
        let ghost src = self@.source;
        let ghost start = self@.start;
        let start_line: i64 = self.line;
        proof {
            lemma_quote_end_bounds(src, start + 1);
        }
        while !self.is_at_end() && self.peek() != '"'
            invariant
                self.wf(),
                self@.source == src,
                self@.start == start,
                self@.tokens == old(self)@.tokens,
                start < self@.current <= src.len(),
                self@.line == old(self)@.line + newline_count(src, start + 1, self@.current),
                quote_end(src, start + 1) == quote_end(src, self@.current),
            decreases src.len() - self@.current,
        {
            proof {
                lemma_newline_count_bounds(src, start + 1, self@.current);
            }
            let c = self.advance();
            if c == '\n' {
                self.line = self.line + 1;
            }
        }
        proof {
            lemma_quote_end_bounds(src, start + 1);
        }
        if self.is_at_end() {
            return Err("unterminated string".to_owned());
        }
        let _quote = self.advance();
        let value = self.source.as_str().substring_char(self.start + 1, self.current - 1).to_owned();
        self.add_token_lit(TokenType::Stringlit, Option::Some(LiteralValue::StringValue(value)), start_line);
        Ok(())
    }

    /// Appends a token with no literal value.
    fn add_token(&mut self, token_type: TokenType)
        requires
            old(self).wf(),
        ensures
            final(self).wf(),
            final(self)@ == (SpecScanner {
                tokens: old(self)@.tokens.push(
                    SpecToken {
                        kind: token_type,
                        lexeme: old(self)@.source.subrange(old(self)@.start, old(self)@.current),
                        literal: Option::None,
                        line: old(self)@.line,
                    },
                ),
                ..old(self)@
            }),
    {
        let line = self.line;
        self.add_token_lit(token_type, Option::None, line);
    }
}

/// Whether `c` is an ASCII decimal digit.
fn is_digit(c: char) -> (r: bool)
    ensures
        r == is_digit_char(c),
{
    let u: u32 = c as u32;
    48 <= u && u <= 57
}

/// Whether `c` may begin an identifier.
fn is_alpha(c: char) -> (r: bool)
    ensures
        r == is_alpha_char(c),
{
    let u: u32 = c as u32;
    (97 <= u && u <= 122) || (65 <= u && u <= 90) || c == '_'
}

/// Whether `c` may continue an identifier.
fn is_ident(c: char) -> (r: bool)
    ensures
        r == is_ident_char(c),
{
    is_alpha(c) || is_digit(c)
}

} // verus!
