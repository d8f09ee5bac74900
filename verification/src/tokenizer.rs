//! Lexical analysis: turns source text into a fully materialized token
//! sequence, always terminated by exactly one `EOF` token.
//!
//! The lexer is total and permissive by design: unrecognized characters are
//! silently skipped, an unterminated string consumes to end of input, and an
//! integer literal too large for `i64` saturates at `i64::MAX`.

use vstd::prelude::*;

verus! {

/// One lexical unit. Structural tokens (`Newline`, `Indent`, `Dedent`, `EOF`)
/// are synthesized from line endings and indentation; the rest mirror source
/// text directly. A float literal keeps its source text: nothing in this
/// layer computes with its numeric value, and a caller that needs one can
/// convert the text.
#[derive(Debug, Clone, PartialEq)]
pub enum Token {
    WhiteSpace,
    // Keywords
    DefKeyword,
    ReturnKeyword,
    IfKeyword,
    ElifKeyword,
    ElseKeyword,
    ForKeyword,
    WhileKeyword,
    BreakKeyword,
    ContinueKeyword,
    PassKeyword,
    ImportKeyword,
    FromKeyword,
    AsKeyword,
    TryKeyword,
    ExceptKeyword,
    FinallyKeyword,
    RaiseKeyword,
    ClassKeyword,
    WithKeyword,
    YieldKeyword,
    GlobalKeyword,
    NonlocalKeyword,
    LambdaKeyword,
    AsyncKeyword,
    AwaitKeyword,
    // Operators
    Plus,
    Minus,
    Star,
    Slash,
    DoubleSlash,
    Percent,
    DoubleStar,
    Equals,
    DoubleEquals,
    NotEquals,
    LessThan,
    GreaterThan,
    LessThanOrEqual,
    GreaterThanOrEqual,
    And,
    Or,
    Not,
    In,
    NotIn,
    Is,
    IsNot,
    // Delimiters
    LParen,
    RParen,
    LBrace,
    RBrace,
    LBracket,
    RBracket,
    Comma,
    Colon,
    Dot,
    Semicolon,
    At,
    Arrow,
    Ellipsis,
    // Literals
    Identifier(String),
    Integer(i64),
    Float(String),
    StringLiteral(String),
    BooleanLiteral(bool),
    NoneLiteral,
    // Comments and structure
    Comment(String),
    Newline,
    Indent,
    Dedent,
    // End of file
    EOF,
}

/// The mathematical value of a token: text fields become character
/// sequences, integers become unbounded integers.
pub enum SpecToken {
    WhiteSpace,
    DefKeyword,
    ReturnKeyword,
    IfKeyword,
    ElifKeyword,
    ElseKeyword,
    ForKeyword,
    WhileKeyword,
    BreakKeyword,
    ContinueKeyword,
    PassKeyword,
    ImportKeyword,
    FromKeyword,
    AsKeyword,
    TryKeyword,
    ExceptKeyword,
    FinallyKeyword,
    RaiseKeyword,
    ClassKeyword,
    WithKeyword,
    YieldKeyword,
    GlobalKeyword,
    NonlocalKeyword,
    LambdaKeyword,
    AsyncKeyword,
    AwaitKeyword,
    Plus,
    Minus,
    Star,
    Slash,
    DoubleSlash,
    Percent,
    DoubleStar,
    Equals,
    DoubleEquals,
    NotEquals,
    LessThan,
    GreaterThan,
    LessThanOrEqual,
    GreaterThanOrEqual,
    And,
    Or,
    Not,
    In,
    NotIn,
    Is,
    IsNot,
    LParen,
    RParen,
    LBrace,
    RBrace,
    LBracket,
    RBracket,
    Comma,
    Colon,
    Dot,
    Semicolon,
    At,
    Arrow,
    Ellipsis,
    Identifier(Seq<char>),
    Integer(int),
    Float(Seq<char>),
    StringLiteral(Seq<char>),
    BooleanLiteral(bool),
    NoneLiteral,
    Comment(Seq<char>),
    Newline,
    Indent,
    Dedent,
    EOF,
}

impl View for Token {
    type V = SpecToken;

    open spec fn view(&self) -> SpecToken {
        match self {
            Token::WhiteSpace => SpecToken::WhiteSpace,
            Token::DefKeyword => SpecToken::DefKeyword,
            Token::ReturnKeyword => SpecToken::ReturnKeyword,
            Token::IfKeyword => SpecToken::IfKeyword,
            Token::ElifKeyword => SpecToken::ElifKeyword,
            Token::ElseKeyword => SpecToken::ElseKeyword,
            Token::ForKeyword => SpecToken::ForKeyword,
            Token::WhileKeyword => SpecToken::WhileKeyword,
            Token::BreakKeyword => SpecToken::BreakKeyword,
            Token::ContinueKeyword => SpecToken::ContinueKeyword,
            Token::PassKeyword => SpecToken::PassKeyword,
            Token::ImportKeyword => SpecToken::ImportKeyword,
            Token::FromKeyword => SpecToken::FromKeyword,
            Token::AsKeyword => SpecToken::AsKeyword,
            Token::TryKeyword => SpecToken::TryKeyword,
            Token::ExceptKeyword => SpecToken::ExceptKeyword,
            Token::FinallyKeyword => SpecToken::FinallyKeyword,
            Token::RaiseKeyword => SpecToken::RaiseKeyword,
            Token::ClassKeyword => SpecToken::ClassKeyword,
            Token::WithKeyword => SpecToken::WithKeyword,
            Token::YieldKeyword => SpecToken::YieldKeyword,
            Token::GlobalKeyword => SpecToken::GlobalKeyword,
            Token::NonlocalKeyword => SpecToken::NonlocalKeyword,
            Token::LambdaKeyword => SpecToken::LambdaKeyword,
            Token::AsyncKeyword => SpecToken::AsyncKeyword,
            Token::AwaitKeyword => SpecToken::AwaitKeyword,
            Token::Plus => SpecToken::Plus,
            Token::Minus => SpecToken::Minus,
            Token::Star => SpecToken::Star,
            Token::Slash => SpecToken::Slash,
            Token::DoubleSlash => SpecToken::DoubleSlash,
            Token::Percent => SpecToken::Percent,
            Token::DoubleStar => SpecToken::DoubleStar,
            Token::Equals => SpecToken::Equals,
            Token::DoubleEquals => SpecToken::DoubleEquals,
            Token::NotEquals => SpecToken::NotEquals,
            Token::LessThan => SpecToken::LessThan,
            Token::GreaterThan => SpecToken::GreaterThan,
            Token::LessThanOrEqual => SpecToken::LessThanOrEqual,
            Token::GreaterThanOrEqual => SpecToken::GreaterThanOrEqual,
            Token::And => SpecToken::And,
            Token::Or => SpecToken::Or,
            Token::Not => SpecToken::Not,
            Token::In => SpecToken::In,
            Token::NotIn => SpecToken::NotIn,
            Token::Is => SpecToken::Is,
            Token::IsNot => SpecToken::IsNot,
            Token::LParen => SpecToken::LParen,
            Token::RParen => SpecToken::RParen,
            Token::LBrace => SpecToken::LBrace,
            Token::RBrace => SpecToken::RBrace,
            Token::LBracket => SpecToken::LBracket,
            Token::RBracket => SpecToken::RBracket,
            Token::Comma => SpecToken::Comma,
            Token::Colon => SpecToken::Colon,
            Token::Dot => SpecToken::Dot,
            Token::Semicolon => SpecToken::Semicolon,
            Token::At => SpecToken::At,
            Token::Arrow => SpecToken::Arrow,
            Token::Ellipsis => SpecToken::Ellipsis,
            Token::Identifier(s) => SpecToken::Identifier(s@),
            Token::Integer(v) => SpecToken::Integer(*v as int),
            Token::Float(s) => SpecToken::Float(s@),
            Token::StringLiteral(s) => SpecToken::StringLiteral(s@),
            Token::BooleanLiteral(b) => SpecToken::BooleanLiteral(*b),
            Token::NoneLiteral => SpecToken::NoneLiteral,
            Token::Comment(s) => SpecToken::Comment(s@),
            Token::Newline => SpecToken::Newline,
            Token::Indent => SpecToken::Indent,
            Token::Dedent => SpecToken::Dedent,
            Token::EOF => SpecToken::EOF,
        }
    }
}

/// The view of a whole token sequence.
pub open spec fn toks_view(ts: Seq<Token>) -> Seq<SpecToken> {
    Seq::new(ts.len(), |k: int| ts[k]@)
}

pub broadcast proof fn lemma_toks_view_push(ts: Seq<Token>, t: Token)
    ensures
        #[trigger] toks_view(ts.push(t)) == toks_view(ts).push(t@),
{
    assert(toks_view(ts.push(t)) =~= toks_view(ts).push(t@));
}

// ---------- Character classes ----------

/// Mid-line whitespace: the only characters that count toward indentation.
pub open spec fn is_line_ws(c: char) -> bool {
    c == ' ' || c == '\t'
}

pub open spec fn is_nl_char(c: char) -> bool {
    c == '\n' || c == '\r'
}

pub open spec fn is_digit(c: char) -> bool {
    '0' <= c && c <= '9'
}

pub open spec fn digit_or_dot(c: char) -> bool {
    is_digit(c) || c == '.'
}

/// The Unicode Alphabetic property, as char::is_alphabetic decides it.
pub uninterp spec fn alphabetic(c: char) -> bool;

/// The Unicode numeric property, as char::is_numeric decides it.
pub uninterp spec fn numeric(c: char) -> bool;

/// Per the standard library, a character is alphanumeric exactly when it is
/// alphabetic or numeric.
pub open spec fn alphanumeric(c: char) -> bool {
    alphabetic(c) || numeric(c)
}

/// A character that may continue an identifier or keyword.
pub open spec fn word_char(c: char) -> bool {
    alphanumeric(c) || c == '_'
}

/// Relies on char::is_alphabetic: whether the character has the Unicode
/// Alphabetic property, a function of the character alone.
#[verifier::external_body]
fn char_alphabetic(c: char) -> (b: bool)
    ensures
        b == alphabetic(c),
{
    c.is_alphabetic()
}

/// Relies on char::is_alphanumeric, documented as true exactly when
/// char::is_alphabetic or char::is_numeric is; a function of the character
/// alone.
#[verifier::external_body]
fn char_alphanumeric(c: char) -> (b: bool)
    ensures
        b == (alphabetic(c) || numeric(c)),
{
    c.is_alphanumeric()
}

/// Relies on String::push: appends one character at the end.
pub assume_specification[ String::push ](s: &mut String, c: char)
    ensures
        final(s)@ == old(s)@.push(c),
;

// ---------- Scanning positions ----------

/// First position at or after `i` holding no line whitespace.
pub open spec fn indent_end(s: Seq<char>, i: int) -> int
    decreases s.len() - i,
{
    if i < 0 || i >= s.len() || !is_line_ws(s[i]) {
        i
    } else {
        indent_end(s, i + 1)
    }
}

/// Weight of one indentation character: a tab counts as four spaces.
pub open spec fn ws_weight(c: char) -> int {
    if c == '\t' {
        4
    } else {
        1
    }
}

/// Measured width of the indentation run starting at `i`.
pub open spec fn indent_width(s: Seq<char>, i: int) -> int
    decreases s.len() - i,
{
    if i < 0 || i >= s.len() || !is_line_ws(s[i]) {
        0
    } else {
        ws_weight(s[i]) + indent_width(s, i + 1)
    }
}

/// First position at or after `i` holding `q`, or the end of input.
pub open spec fn find_char(s: Seq<char>, i: int, q: char) -> int
    decreases s.len() - i,
{
    if i < 0 || i >= s.len() {
        s.len() as int
    } else if s[i] == q {
        i
    } else {
        find_char(s, i + 1, q)
    }
}

/// End of the digits-and-dots run starting at `i`.
pub open spec fn num_end(s: Seq<char>, i: int) -> int
    decreases s.len() - i,
{
    if i < 0 || i >= s.len() || !digit_or_dot(s[i]) {
        i
    } else {
        num_end(s, i + 1)
    }
}

/// End of the identifier/keyword run starting at `i`.
pub open spec fn word_end(s: Seq<char>, i: int) -> int
    decreases s.len() - i,
{
    if i < 0 || i >= s.len() || !word_char(s[i]) {
        i
    } else {
        word_end(s, i + 1)
    }
}

pub proof fn lemma_indent_end_bounds(s: Seq<char>, i: int)
    requires
        0 <= i <= s.len(),
    ensures
        i <= indent_end(s, i) <= s.len(),
        i < s.len() && is_line_ws(s[i]) ==> i + 1 <= indent_end(s, i),
    decreases s.len() - i,
{
    if i < s.len() && is_line_ws(s[i]) {
        lemma_indent_end_bounds(s, i + 1);
    }
}

pub proof fn lemma_find_char_bounds(s: Seq<char>, i: int, q: char)
    requires
        0 <= i <= s.len(),
    ensures
        i <= find_char(s, i, q) <= s.len(),
    decreases s.len() - i,
{
    if i < s.len() && s[i] != q {
        lemma_find_char_bounds(s, i + 1, q);
    }
}

pub proof fn lemma_num_end_bounds(s: Seq<char>, i: int)
    requires
        0 <= i <= s.len(),
    ensures
        i <= num_end(s, i) <= s.len(),
        i < s.len() && digit_or_dot(s[i]) ==> i + 1 <= num_end(s, i),
    decreases s.len() - i,
{
    if i < s.len() && digit_or_dot(s[i]) {
        lemma_num_end_bounds(s, i + 1);
    }
}

pub proof fn lemma_word_end_bounds(s: Seq<char>, i: int)
    requires
        0 <= i <= s.len(),
    ensures
        i <= word_end(s, i) <= s.len(),
        i < s.len() && word_char(s[i]) ==> i + 1 <= word_end(s, i),
    decreases s.len() - i,
{
    if i < s.len() && word_char(s[i]) {
        lemma_word_end_bounds(s, i + 1);
    }
}

// ---------- The indentation stack ----------

/// The indentation stack is seeded with a single `0` and always keeps it at
/// the bottom.
pub open spec fn stack_wf(stack: Seq<int>) -> bool {
    stack.len() >= 1 && stack[0] == 0
}

/// The stack after popping every level above `w`.
pub open spec fn popped_stack(stack: Seq<int>, w: int) -> Seq<int>
    decreases stack.len(),
{
    if stack.len() == 0 || stack.last() <= w {
        stack
    } else {
        popped_stack(stack.drop_last(), w)
    }
}

/// How many levels popping to width `w` removes.
pub open spec fn pop_count(stack: Seq<int>, w: int) -> int
    decreases stack.len(),
{
    if stack.len() == 0 || stack.last() <= w {
        0
    } else {
        1 + pop_count(stack.drop_last(), w)
    }
}

pub open spec fn dedents(n: int) -> Seq<SpecToken> {
    Seq::new(if n >= 0 { n as nat } else { 0 }, |k: int| SpecToken::Dedent)
}

/// The structural tokens one indentation check emits: one `Indent` on a
/// push, one `Dedent` per popped level, nothing when the width is unchanged.
pub open spec fn indent_tokens(stack: Seq<int>, w: int) -> Seq<SpecToken> {
    if stack.len() > 0 && w > stack.last() {
        seq![SpecToken::Indent]
    } else {
        dedents(pop_count(stack, w))
    }
}

/// The stack after one indentation check against width `w`.
pub open spec fn stack_after(stack: Seq<int>, w: int) -> Seq<int> {
    if stack.len() > 0 && w > stack.last() {
        stack.push(w)
    } else {
        popped_stack(stack, w)
    }
}

pub proof fn lemma_popped_wf(stack: Seq<int>, w: int)
    requires
        stack_wf(stack),
        w >= 0,
    ensures
        stack_wf(popped_stack(stack, w)),
        popped_stack(stack, w).len() <= stack.len(),
        pop_count(stack, w) == stack.len() - popped_stack(stack, w).len(),
    decreases stack.len(),
{
    if !(stack.len() == 0 || stack.last() <= w) {
        assert(stack.drop_last()[0] == stack[0]);
        lemma_popped_wf(stack.drop_last(), w);
    }
}

pub proof fn lemma_stack_after_wf(stack: Seq<int>, w: int)
    requires
        stack_wf(stack),
        w >= 0,
    ensures
        stack_wf(stack_after(stack, w)),
{
    if !(stack.len() > 0 && w > stack.last()) {
        lemma_popped_wf(stack, w);
    }
}

// ---------- Literal values ----------

/// The integer a digit string denotes.
pub open spec fn digits_val(t: Seq<char>) -> int
    decreases t.len(),
{
    if t.len() == 0 {
        0
    } else {
        digits_val(t.drop_last()) * 10 + (t.last() as int - '0' as int)
    }
}

/// The value stored for an integer literal: its digits' value, saturated at
/// `i64::MAX` when the literal does not fit.
pub open spec fn int_lit_val(t: Seq<char>) -> int {
    if digits_val(t) > i64::MAX {
        i64::MAX as int
    } else {
        digits_val(t)
    }
}

pub open spec fn has_dot(t: Seq<char>) -> bool {
    exists|k: int| 0 <= k < t.len() && t[k] == '.'
}

/// Which token a completed identifier/keyword run denotes.
pub open spec fn spec_word_token(w: Seq<char>) -> SpecToken {
    if w == "def"@ {
        SpecToken::DefKeyword
    } else if w == "return"@ {
        SpecToken::ReturnKeyword
    } else if w == "if"@ {
        SpecToken::IfKeyword
    } else if w == "else"@ {
        SpecToken::ElseKeyword
    } else if w == "None"@ {
        SpecToken::NoneLiteral
    } else if w == "True"@ {
        SpecToken::BooleanLiteral(true)
    } else if w == "False"@ {
        SpecToken::BooleanLiteral(false)
    } else if w == "elif"@ {
        SpecToken::ElifKeyword
    } else if w == "for"@ {
        SpecToken::ForKeyword
    } else if w == "while"@ {
        SpecToken::WhileKeyword
    } else if w == "break"@ {
        SpecToken::BreakKeyword
    } else if w == "continue"@ {
        SpecToken::ContinueKeyword
    } else if w == "pass"@ {
        SpecToken::PassKeyword
    } else if w == "import"@ {
        SpecToken::ImportKeyword
    } else if w == "from"@ {
        SpecToken::FromKeyword
    } else if w == "as"@ {
        SpecToken::AsKeyword
    } else if w == "try"@ {
        SpecToken::TryKeyword
    } else if w == "except"@ {
        SpecToken::ExceptKeyword
    } else if w == "finally"@ {
        SpecToken::FinallyKeyword
    } else if w == "raise"@ {
        SpecToken::RaiseKeyword
    } else if w == "class"@ {
        SpecToken::ClassKeyword
    } else if w == "with"@ {
        SpecToken::WithKeyword
    } else if w == "yield"@ {
        SpecToken::YieldKeyword
    } else if w == "global"@ {
        SpecToken::GlobalKeyword
    } else if w == "lambda"@ {
        SpecToken::LambdaKeyword
    } else if w == "async"@ {
        SpecToken::AsyncKeyword
    } else if w == "await"@ {
        SpecToken::AwaitKeyword
    } else if w == "and"@ {
        SpecToken::And
    } else if w == "or"@ {
        SpecToken::Or
    } else if w == "not"@ {
        SpecToken::Not
    } else if w == "in"@ {
        SpecToken::In
    } else if w == "is"@ {
        SpecToken::Is
    } else {
        SpecToken::Identifier(w)
    }
}

// ---------- The scan itself ----------

/// The raw token stream from position `i` on, given the current indentation
/// stack and whether the scanner stands at the start of a logical line.
/// Indentation is measured first on a new line; the character that was
/// peeked before the measurement then drives the ordinary scanning rules.
pub open spec fn spec_scan(s: Seq<char>, i: int, stack: Seq<int>, als: bool) -> Seq<SpecToken>
    decreases s.len() - i, 1int,
        via spec_scan_dec
{
    if i < 0 || i >= s.len() {
        seq![SpecToken::EOF]
    } else if als {
        let w = indent_width(s, i);
        let emitted = indent_tokens(stack, w);
        let stack2 = stack_after(stack, w);
        if is_line_ws(s[i]) {
            // the peeked character is whitespace: after the indentation run
            // is consumed the whitespace rule finds nothing left to do
            emitted + spec_scan(s, indent_end(s, i), stack2, false)
        } else {
            emitted + spec_scan_token(s, i, stack2)
        }
    } else {
        spec_scan_token(s, i, stack)
    }
}

/// One ordinary scanning step at position `i` (not a line start), followed
/// by the rest of the scan.
pub open spec fn spec_scan_token(s: Seq<char>, i: int, stack: Seq<int>) -> Seq<SpecToken>
    decreases s.len() - i, 0int,
        via spec_scan_token_dec
{
    let c = s[i];
    if i < 0 || i >= s.len() {
        seq![SpecToken::EOF]
    } else if is_line_ws(c) {
        spec_scan(s, indent_end(s, i), stack, false)
    } else if is_nl_char(c) {
        seq![SpecToken::Newline] + spec_scan(s, i + 1, stack, true)
    } else if c == '(' {
        seq![SpecToken::LParen] + spec_scan(s, i + 1, stack, false)
    } else if c == ')' {
        seq![SpecToken::RParen] + spec_scan(s, i + 1, stack, false)
    } else if c == '{' {
        seq![SpecToken::LBrace] + spec_scan(s, i + 1, stack, false)
    } else if c == '}' {
        seq![SpecToken::RBrace] + spec_scan(s, i + 1, stack, false)
    } else if c == '[' {
        seq![SpecToken::LBracket] + spec_scan(s, i + 1, stack, false)
    } else if c == ']' {
        seq![SpecToken::RBracket] + spec_scan(s, i + 1, stack, false)
    } else if c == '+' {
        seq![SpecToken::Plus] + spec_scan(s, i + 1, stack, false)
    } else if c == '-' {
        if i + 1 < s.len() && s[i + 1] == '>' {
            seq![SpecToken::Arrow] + spec_scan(s, i + 2, stack, false)
        } else {
            seq![SpecToken::Minus] + spec_scan(s, i + 1, stack, false)
        }
    } else if c == '*' {
        if i + 1 < s.len() && s[i + 1] == '*' {
            seq![SpecToken::DoubleStar] + spec_scan(s, i + 2, stack, false)
        } else {
            seq![SpecToken::Star] + spec_scan(s, i + 1, stack, false)
        }
    } else if c == '/' {
        if i + 1 < s.len() && s[i + 1] == '/' {
            seq![SpecToken::DoubleSlash] + spec_scan(s, i + 2, stack, false)
        } else {
            seq![SpecToken::Slash] + spec_scan(s, i + 1, stack, false)
        }
    } else if c == '=' {
        if i + 1 < s.len() && s[i + 1] == '=' {
            seq![SpecToken::DoubleEquals] + spec_scan(s, i + 2, stack, false)
        } else {
            seq![SpecToken::Equals] + spec_scan(s, i + 1, stack, false)
        }
    } else if c == '!' {
        if i + 1 < s.len() && s[i + 1] == '=' {
            seq![SpecToken::NotEquals] + spec_scan(s, i + 2, stack, false)
        } else {
            // a lone '!' is not a token: it is dropped
            spec_scan(s, i + 1, stack, false)
        }
    } else if c == '<' {
        if i + 1 < s.len() && s[i + 1] == '=' {
            seq![SpecToken::LessThanOrEqual] + spec_scan(s, i + 2, stack, false)
        } else {
            seq![SpecToken::LessThan] + spec_scan(s, i + 1, stack, false)
        }
    } else if c == '>' {
        if i + 1 < s.len() && s[i + 1] == '=' {
            seq![SpecToken::GreaterThanOrEqual] + spec_scan(s, i + 2, stack, false)
        } else {
            seq![SpecToken::GreaterThan] + spec_scan(s, i + 1, stack, false)
        }
    } else if c == '\'' || c == '"' {
        // consume through the matching quote; an unterminated string takes
        // the rest of the input
        let e = find_char(s, i + 1, c);
        let nxt = if e < s.len() {
            e + 1
        } else {
            e
        };
        seq![SpecToken::StringLiteral(s.subrange(i + 1, e))] + spec_scan(s, nxt, stack, false)
    } else if c == '#' {
        let e = find_char(s, i + 1, '\n');
        seq![SpecToken::Comment(s.subrange(i + 1, e))] + spec_scan(s, e, stack, false)
    } else if c == ';' {
        seq![SpecToken::Semicolon] + spec_scan(s, i + 1, stack, false)
    } else if c == ':' {
        seq![SpecToken::Colon] + spec_scan(s, i + 1, stack, false)
    } else if c == ',' {
        seq![SpecToken::Comma] + spec_scan(s, i + 1, stack, false)
    } else if c == '%' {
        seq![SpecToken::Percent] + spec_scan(s, i + 1, stack, false)
    } else if is_digit(c) {
        let e = num_end(s, i);
        let t = s.subrange(i, e);
        let tok = if has_dot(t) {
            SpecToken::Float(t)
        } else {
            SpecToken::Integer(int_lit_val(t))
        };
        seq![tok] + spec_scan(s, e, stack, false)
    } else if alphabetic(c) || c == '_' {
        let e = word_end(s, i);
        seq![spec_word_token(s.subrange(i, e))] + spec_scan(s, e, stack, false)
    } else {
        // any other character is silently dropped
        spec_scan(s, i + 1, stack, false)
    }
}

#[via_fn]
proof fn spec_scan_dec(s: Seq<char>, i: int, stack: Seq<int>, als: bool) {
    if 0 <= i < s.len() {
        lemma_indent_end_bounds(s, i);
    }
}

#[via_fn]
proof fn spec_scan_token_dec(s: Seq<char>, i: int, stack: Seq<int>) {
    if 0 <= i < s.len() {
        lemma_indent_end_bounds(s, i);
        lemma_find_char_bounds(s, i + 1, s[i]);
        lemma_find_char_bounds(s, i + 1, '\n');
        lemma_num_end_bounds(s, i);
        lemma_word_end_bounds(s, i);
    }
}

/// The whole raw token stream of a source text.
pub open spec fn spec_tokenize(s: Seq<char>) -> Seq<SpecToken> {
    spec_scan(s, 0, seq![0], true)
}

// ---------- One scanning step, flattened ----------

/// What one ordinary scanning step at `i` emits, where it continues, and
/// whether it starts a new logical line.
pub open spec fn scan_step(s: Seq<char>, i: int) -> (Seq<SpecToken>, int, bool) {
    let c = s[i];
    if is_line_ws(c) {
        (Seq::<SpecToken>::empty(), indent_end(s, i), false)
    } else if is_nl_char(c) {
        (seq![SpecToken::Newline], i + 1, true)
    } else if c == '(' {
        (seq![SpecToken::LParen], i + 1, false)
    } else if c == ')' {
        (seq![SpecToken::RParen], i + 1, false)
    } else if c == '{' {
        (seq![SpecToken::LBrace], i + 1, false)
    } else if c == '}' {
        (seq![SpecToken::RBrace], i + 1, false)
    } else if c == '[' {
        (seq![SpecToken::LBracket], i + 1, false)
    } else if c == ']' {
        (seq![SpecToken::RBracket], i + 1, false)
    } else if c == '+' {
        (seq![SpecToken::Plus], i + 1, false)
    } else if c == '-' {
        if i + 1 < s.len() && s[i + 1] == '>' {
            (seq![SpecToken::Arrow], i + 2, false)
        } else {
            (seq![SpecToken::Minus], i + 1, false)
        }
    } else if c == '*' {
        if i + 1 < s.len() && s[i + 1] == '*' {
            (seq![SpecToken::DoubleStar], i + 2, false)
        } else {
            (seq![SpecToken::Star], i + 1, false)
        }
    } else if c == '/' {
        if i + 1 < s.len() && s[i + 1] == '/' {
            (seq![SpecToken::DoubleSlash], i + 2, false)
        } else {
            (seq![SpecToken::Slash], i + 1, false)
        }
    } else if c == '=' {
        if i + 1 < s.len() && s[i + 1] == '=' {
            (seq![SpecToken::DoubleEquals], i + 2, false)
        } else {
            (seq![SpecToken::Equals], i + 1, false)
        }
    } else if c == '!' {
        if i + 1 < s.len() && s[i + 1] == '=' {
            (seq![SpecToken::NotEquals], i + 2, false)
        } else {
            (Seq::<SpecToken>::empty(), i + 1, false)
        }
    } else if c == '<' {
        if i + 1 < s.len() && s[i + 1] == '=' {
            (seq![SpecToken::LessThanOrEqual], i + 2, false)
        } else {
            (seq![SpecToken::LessThan], i + 1, false)
        }
    } else if c == '>' {
        if i + 1 < s.len() && s[i + 1] == '=' {
            (seq![SpecToken::GreaterThanOrEqual], i + 2, false)
        } else {
            (seq![SpecToken::GreaterThan], i + 1, false)
        }
    } else if c == '\'' || c == '"' {
        let e = find_char(s, i + 1, c);
        (
            seq![SpecToken::StringLiteral(s.subrange(i + 1, e))],
            if e < s.len() {
                e + 1
            } else {
                e
            },
            false,
        )
    } else if c == '#' {
        let e = find_char(s, i + 1, '\n');
        (seq![SpecToken::Comment(s.subrange(i + 1, e))], e, false)
    } else if c == ';' {
        (seq![SpecToken::Semicolon], i + 1, false)
    } else if c == ':' {
        (seq![SpecToken::Colon], i + 1, false)
    } else if c == ',' {
        (seq![SpecToken::Comma], i + 1, false)
    } else if c == '%' {
        (seq![SpecToken::Percent], i + 1, false)
    } else if is_digit(c) {
        let e = num_end(s, i);
        let t = s.subrange(i, e);
        if has_dot(t) {
            (seq![SpecToken::Float(t)], e, false)
        } else {
            (seq![SpecToken::Integer(int_lit_val(t))], e, false)
        }
    } else if alphabetic(c) || c == '_' {
        let e = word_end(s, i);
        (seq![spec_word_token(s.subrange(i, e))], e, false)
    } else {
        (Seq::<SpecToken>::empty(), i + 1, false)
    }
}

/// One ordinary scanning step makes strict progress, and the rest of the
/// scan is the step's emission followed by the scan from where it stopped.
pub proof fn lemma_scan_token_step(s: Seq<char>, i: int, stack: Seq<int>)
    requires
        0 <= i < s.len(),
    ensures
        i < scan_step(s, i).1 <= s.len(),
        spec_scan_token(s, i, stack) == scan_step(s, i).0 + spec_scan(
            s,
            scan_step(s, i).1,
            stack,
            scan_step(s, i).2,
        ),
{
    lemma_indent_end_bounds(s, i);
    lemma_find_char_bounds(s, i + 1, s[i]);
    lemma_find_char_bounds(s, i + 1, '\n');
    lemma_num_end_bounds(s, i);
    lemma_word_end_bounds(s, i);
    let c = s[i];
    if is_line_ws(c) {
        assert(Seq::<SpecToken>::empty() + spec_scan(s, indent_end(s, i), stack, false) =~= spec_scan(
            s,
            indent_end(s, i),
            stack,
            false,
        ));
    } else if c == '!' && !(i + 1 < s.len() && s[i + 1] == '=') {
        assert(Seq::<SpecToken>::empty() + spec_scan(s, i + 1, stack, false) =~= spec_scan(
            s,
            i + 1,
            stack,
            false,
        ));
    } else if !is_nl_char(c) && c != '(' && c != ')' && c != '{' && c != '}' && c != '[' && c != ']'
        && c != '+' && c != '-' && c != '*' && c != '/' && c != '=' && c != '!' && c != '<' && c
        != '>' && c != '\'' && c != '"' && c != '#' && c != ';' && c != ':' && c != ',' && c != '%'
        && !is_digit(c) && !(alphabetic(c) || c == '_') {
        assert(Seq::<SpecToken>::empty() + spec_scan(s, i + 1, stack, false) =~= spec_scan(
            s,
            i + 1,
            stack,
            false,
        ));
    }
}

// ---------- Exec scanning helpers ----------

/// The mathematical view of the executable indentation stack.
pub open spec fn stack_view(v: Seq<u128>) -> Seq<int> {
    Seq::new(v.len(), |k: int| v[k] as int)
}

/// Skips the run of spaces and tabs starting at `i` and returns the
/// position of the first character after it.
pub fn consume_whitespace(input: &str, i: usize) -> (j: usize)
    requires
        i as int <= input@.len(),
    ensures
        i <= j,
        j as int == indent_end(input@, i as int),
{
    let n = input.unicode_len();
    let mut j: usize = i;
    loop
        invariant
            input@.len() == n as int,
            i <= j && j <= n,
            indent_end(input@, i as int) == indent_end(input@, j as int),
        ensures
            j as int == indent_end(input@, i as int),
        decreases n - j,
    {
        if j >= n {
            break;
        }
        let c = input.get_char(j);
        if !(c == ' ' || c == '\t') {
            break;
        }
        j = j + 1;
    }
    j
}

/// Measures the indentation width at the start of a logical line, adjusts
/// the indentation stack, and emits the matching `Indent`/`Dedent` tokens.
fn handle_indentation(input: &str, i: usize, indent_stack: &mut Vec<u128>, tokens: &mut Vec<Token>) -> (j: usize)
    requires
        i as int <= input@.len(),
        stack_wf(stack_view(old(indent_stack)@)),
    ensures
        i <= j,
        j as int == indent_end(input@, i as int),
        stack_wf(stack_view(final(indent_stack)@)),
        stack_view(final(indent_stack)@) == stack_after(
            stack_view(old(indent_stack)@),
            indent_width(input@, i as int),
        ),
        toks_view(final(tokens)@) == toks_view(old(tokens)@) + indent_tokens(
            stack_view(old(indent_stack)@),
            indent_width(input@, i as int),
        ),
{
    broadcast use lemma_toks_view_push;

    let n = input.unicode_len();
    let mut j: usize = i;
    let mut w: u128 = 0;
    loop
        invariant
            input@.len() == n as int,
            i <= j && j <= n,
            indent_end(input@, i as int) == indent_end(input@, j as int),
            indent_width(input@, i as int) == w + indent_width(input@, j as int),
            w <= 4 * (j - i),
        ensures
            j as int == indent_end(input@, i as int),
            w as int == indent_width(input@, i as int),
        decreases n - j,
    {
        if j >= n {
            break;
        }
        let c = input.get_char(j);
        if c == ' ' {
            w = w + 1;
        } else if c == '\t' {
            w = w + 4;
        } else {
            break;
        }
        j = j + 1;
    }
    let ghost stack0 = stack_view(indent_stack@);
    let top = indent_stack[indent_stack.len() - 1];
    if w > top {
        indent_stack.push(w);
        tokens.push(Token::Indent);
        proof {
            assert(stack_view(indent_stack@) =~= stack0.push(w as int));
        }
    } else {
        let ghost toks0 = toks_view(tokens@);
        loop
            invariant
                stack_wf(stack_view(indent_stack@)),
                popped_stack(stack_view(indent_stack@), w as int) == popped_stack(
                    stack0,
                    w as int,
                ),
                toks_view(tokens@) + dedents(pop_count(stack_view(indent_stack@), w as int))
                    == toks0 + dedents(pop_count(stack0, w as int)),
            ensures
                stack_wf(stack_view(indent_stack@)),
                stack_view(indent_stack@) == popped_stack(stack0, w as int),
                toks_view(tokens@) == toks0 + dedents(pop_count(stack0, w as int)),
            decreases indent_stack.len(),
        {
            let len = indent_stack.len();
            let last = indent_stack[len - 1];
            let ghost cur = stack_view(indent_stack@);
            if last <= w {
                proof {
                    assert(popped_stack(cur, w as int) == cur);
                    assert(pop_count(cur, w as int) == 0);
                    assert(dedents(0) =~= Seq::<SpecToken>::empty());
                    assert(toks_view(tokens@) + Seq::<SpecToken>::empty() =~= toks_view(
                        tokens@,
                    ));
                }
                break;
            }
            proof {
                // the bottom entry 0 is never above w, so at least two remain
                assert(cur[0] == 0);
                assert(cur.last() == last as int);
                assert(cur.len() >= 2);
            }
            indent_stack.pop();
            tokens.push(Token::Dedent);
            proof {
                assert(stack_view(indent_stack@) =~= cur.drop_last());
                assert(stack_view(indent_stack@)[0] == cur[0]);
                assert(pop_count(cur, w as int) == 1 + pop_count(cur.drop_last(), w as int));
                let k = pop_count(cur.drop_last(), w as int);
                lemma_popped_wf(cur.drop_last(), w as int);
                assert(dedents(k + 1) =~= seq![SpecToken::Dedent] + dedents(k));
                assert(toks_view(tokens@) + dedents(k) =~= toks0 + dedents(
                    pop_count(stack0, w as int),
                )) by {
                    assert(toks_view(tokens@) =~= toks_view(tokens@.drop_last()).push(
                        SpecToken::Dedent,
                    ));
                    assert(toks_view(tokens@.drop_last()) + dedents(k + 1) == toks0 + dedents(
                        pop_count(stack0, w as int),
                    ));
                    assert(toks_view(tokens@.drop_last()) + (seq![SpecToken::Dedent] + dedents(
                        k,
                    )) =~= toks_view(tokens@) + dedents(k));
                }
            }
        }
    }
    j
}

/// Consumes a string literal delimited by the quote character at `i`.
/// An unterminated literal silently takes the rest of the input.
fn consume_string_literal(input: &str, i: usize) -> (r: (Token, usize))
    requires
        (i as int) < input@.len(),
        input@[i as int] == '\'' || input@[i as int] == '"',
    ensures
        r.0@ == SpecToken::StringLiteral(
            input@.subrange(i + 1, find_char(input@, i + 1, input@[i as int])),
        ),
        r.1 as int == (if find_char(input@, i + 1, input@[i as int]) < input@.len() {
            find_char(input@, i + 1, input@[i as int]) + 1
        } else {
            find_char(input@, i + 1, input@[i as int])
        }),
{
    let n = input.unicode_len();
    let quote = input.get_char(i);
    let mut lit = String::new();
    let mut k: usize = i + 1;
    loop
        invariant_except_break
            input@.len() == n as int,
            i + 1 <= k && k <= n,
            quote == input@[i as int],
            find_char(input@, i + 1, quote) == find_char(input@, k as int, quote),
            lit@ == input@.subrange(i + 1, k as int),
        ensures
            lit@ == input@.subrange(i + 1, find_char(input@, i + 1, quote)),
            k as int == (if find_char(input@, i + 1, quote) < input@.len() {
                find_char(input@, i + 1, quote) + 1
            } else {
                find_char(input@, i + 1, quote)
            }),
        decreases n - k,
    {
        if k >= n {
            break;
        }
        let c = input.get_char(k);
        if c == quote {
            k = k + 1;
            break;
        }
        lit.push(c);
        k = k + 1;
        proof {
            assert(input@.subrange(i + 1, k as int) =~= input@.subrange(i + 1, k - 1).push(
                input@[k - 1],
            ));
        }
    }
    (Token::StringLiteral(lit), k)
}

/// Consumes a `#` comment up to, but not including, the line's newline.
fn consume_comment(input: &str, i: usize) -> (r: (Token, usize))
    requires
        (i as int) < input@.len(),
        input@[i as int] == '#',
    ensures
        r.0@ == SpecToken::Comment(input@.subrange(i + 1, find_char(input@, i + 1, '\n'))),
        r.1 as int == find_char(input@, i + 1, '\n'),
{
    let n = input.unicode_len();
    let mut text = String::new();
    let mut k: usize = i + 1;
    loop
        invariant
            input@.len() == n as int,
            i + 1 <= k && k <= n,
            find_char(input@, i + 1, '\n') == find_char(input@, k as int, '\n'),
            text@ == input@.subrange(i + 1, k as int),
        ensures
            text@ == input@.subrange(i + 1, find_char(input@, i + 1, '\n')),
            k as int == find_char(input@, i + 1, '\n'),
        decreases n - k,
    {
        if k >= n {
            break;
        }
        let c = input.get_char(k);
        if c == '\n' {
            break;
        }
        text.push(c);
        k = k + 1;
        proof {
            assert(input@.subrange(i + 1, k as int) =~= input@.subrange(i + 1, k - 1).push(
                input@[k - 1],
            ));
        }
    }
    (Token::Comment(text), k)
}

pub proof fn lemma_num_end_chars(s: Seq<char>, i: int)
    requires
        0 <= i <= s.len(),
    ensures
        forall|k: int| i <= k < num_end(s, i) ==> digit_or_dot(#[trigger] s[k]),
    decreases s.len() - i,
{
    lemma_num_end_bounds(s, i);
    if i < s.len() && digit_or_dot(s[i]) {
        lemma_num_end_chars(s, i + 1);
    }
}

pub proof fn lemma_has_dot_push(t: Seq<char>, c: char)
    ensures
        has_dot(t.push(c)) == (has_dot(t) || c == '.'),
{
    if c == '.' {
        assert(t.push(c)[t.len() as int] == '.');
    }
    if has_dot(t) {
        let k = choose|k: int| 0 <= k < t.len() && t[k] == '.';
        assert(t.push(c)[k] == '.');
    }
    if has_dot(t.push(c)) && c != '.' {
        let k = choose|k: int| 0 <= k < t.push(c).len() && t.push(c)[k] == '.';
        assert(t[k] == '.');
    }
}

pub proof fn lemma_digits_val_nonneg(t: Seq<char>)
    requires
        forall|k: int| 0 <= k < t.len() ==> is_digit(t[k]),
    ensures
        digits_val(t) >= 0,
    decreases t.len(),
{
    if t.len() > 0 {
        lemma_digits_val_nonneg(t.drop_last());
        assert(digits_val(t.drop_last()) * 10 >= 0) by (nonlinear_arith)
            requires
                digits_val(t.drop_last()) >= 0,
        ;
    }
}

/// Consumes a run of digits and decimal points starting at the digit at
/// `i`. Without a decimal point it denotes an integer, saturated at
/// `i64::MAX` when the digits do not fit; with one it is a float literal,
/// kept as text.
fn consume_number(input: &str, i: usize) -> (r: (Token, usize))
    requires
        (i as int) < input@.len(),
        is_digit(input@[i as int]),
    ensures
        r.1 as int == num_end(input@, i as int),
        r.0@ == (if has_dot(input@.subrange(i as int, num_end(input@, i as int))) {
            SpecToken::Float(input@.subrange(i as int, num_end(input@, i as int)))
        } else {
            SpecToken::Integer(int_lit_val(input@.subrange(i as int, num_end(input@, i as int))))
        }),
{
    let n = input.unicode_len();
    let mut text = String::new();
    let mut dotted = false;
    let mut k: usize = i;
    proof {
        assert(text@ =~= input@.subrange(i as int, i as int));
    }
    loop
        invariant
            input@.len() == n as int,
            i <= k && k <= n,
            num_end(input@, i as int) == num_end(input@, k as int),
            text@ == input@.subrange(i as int, k as int),
            dotted == has_dot(text@),
        ensures
            k as int == num_end(input@, i as int),
            text@ == input@.subrange(i as int, k as int),
            dotted == has_dot(text@),
        decreases n - k,
    {
        if k >= n {
            break;
        }
        let c = input.get_char(k);
        if !((c >= '0' && c <= '9') || c == '.') {
            break;
        }
        if c == '.' {
            dotted = true;
        }
        text.push(c);
        k = k + 1;
        proof {
            assert(input@.subrange(i as int, k as int) =~= input@.subrange(i as int, k - 1).push(
                input@[k - 1],
            ));
            lemma_has_dot_push(input@.subrange(i as int, k - 1), input@[k - 1]);
        }
    }
    if dotted {
        return (Token::Float(text), k);
    }
    proof {
        lemma_num_end_chars(input@, i as int);
        assert(forall|x: int| 0 <= x < text@.len() ==> is_digit(#[trigger] text@[x])) by {
            assert(forall|x: int| 0 <= x < text@.len() ==> digit_or_dot(#[trigger] text@[x]));
        }
    }
    let m = text.as_str().unicode_len();
    let mut acc: i64 = 0;
    let mut q: usize = 0;
    proof {
        assert(text@.subrange(0, 0) =~= Seq::<char>::empty());
    }
    loop
        invariant
            q <= m,
            text@.len() == m as int,
            forall|x: int| 0 <= x < text@.len() ==> is_digit(#[trigger] text@[x]),
            acc >= 0,
            acc as int == (if digits_val(text@.subrange(0, q as int)) > i64::MAX {
                i64::MAX as int
            } else {
                digits_val(text@.subrange(0, q as int))
            }),
        ensures
            acc as int == int_lit_val(text@),
        decreases m - q,
    {
        if q >= m {
            proof {
                assert(text@.subrange(0, m as int) =~= text@);
            }
            break;
        }
        let c = text.as_str().get_char(q);
        let d: i64 = ((c as u32) - ('0' as u32)) as i64;
        let ghost pre = text@.subrange(0, q as int);
        let ghost now = text@.subrange(0, q + 1);
        proof {
            assert(now.drop_last() =~= pre);
            assert(now.last() == text@[q as int]);
            lemma_digits_val_nonneg(pre);
            lemma_digits_val_nonneg(now);
        }
        let next: i64 = match acc.checked_mul(10) {
            Some(p) => match p.checked_add(d) {
                Some(x) => x,
                None => i64::MAX,
            },
            None => i64::MAX,
        };
        proof {
            if digits_val(pre) > i64::MAX {
                assert(digits_val(pre) * 10 + (d as int) > i64::MAX) by (nonlinear_arith)
                    requires
                        digits_val(pre) > i64::MAX,
                        d >= 0,
                ;
                assert(acc as int * 10 > i64::MAX) by (nonlinear_arith)
                    requires
                        acc == i64::MAX,
                ;
            }
        }
        acc = next;
        q = q + 1;
    }
    (Token::Integer(acc), k)
}

/// Whether the scanned word equals the given keyword text.
fn word_is(word: &String, lit: &str) -> (b: bool)
    ensures
        b == (word@ == lit@),
{
    word.eq(&lit.to_owned())
}

/// Maps a completed identifier/keyword run to its token: a fixed table of
/// reserved words, the three named literals, and otherwise an identifier.
fn classify_word(word: String) -> (t: Token)
    ensures
        t@ == spec_word_token(word@),
{
    if word_is(&word, "def") {
        Token::DefKeyword
    } else if word_is(&word, "return") {
        Token::ReturnKeyword
    } else if word_is(&word, "if") {
        Token::IfKeyword
    } else if word_is(&word, "else") {
        Token::ElseKeyword
    } else if word_is(&word, "None") {
        Token::NoneLiteral
    } else if word_is(&word, "True") {
        Token::BooleanLiteral(true)
    } else if word_is(&word, "False") {
        Token::BooleanLiteral(false)
    } else if word_is(&word, "elif") {
        Token::ElifKeyword
    } else if word_is(&word, "for") {
        Token::ForKeyword
    } else if word_is(&word, "while") {
        Token::WhileKeyword
    } else if word_is(&word, "break") {
        Token::BreakKeyword
    } else if word_is(&word, "continue") {
        Token::ContinueKeyword
    } else if word_is(&word, "pass") {
        Token::PassKeyword
    } else if word_is(&word, "import") {
        Token::ImportKeyword
    } else if word_is(&word, "from") {
        Token::FromKeyword
    } else if word_is(&word, "as") {
        Token::AsKeyword
    } else if word_is(&word, "try") {
        Token::TryKeyword
    } else if word_is(&word, "except") {
        Token::ExceptKeyword
    } else if word_is(&word, "finally") {
        Token::FinallyKeyword
    } else if word_is(&word, "raise") {
        Token::RaiseKeyword
    } else if word_is(&word, "class") {
        Token::ClassKeyword
    } else if word_is(&word, "with") {
        Token::WithKeyword
    } else if word_is(&word, "yield") {
        Token::YieldKeyword
    } else if word_is(&word, "global") {
        Token::GlobalKeyword
    } else if word_is(&word, "lambda") {
        Token::LambdaKeyword
    } else if word_is(&word, "async") {
        Token::AsyncKeyword
    } else if word_is(&word, "await") {
        Token::AwaitKeyword
    } else if word_is(&word, "and") {
        Token::And
    } else if word_is(&word, "or") {
        Token::Or
    } else if word_is(&word, "not") {
        Token::Not
    } else if word_is(&word, "in") {
        Token::In
    } else if word_is(&word, "is") {
        Token::Is
    } else {
        Token::Identifier(word)
    }
}

/// Consumes an identifier or keyword starting at `i`, whose first
/// character is alphabetic or an underscore.
fn consume_identifier_or_keyword(input: &str, i: usize) -> (r: (Token, usize))
    requires
        (i as int) < input@.len(),
        alphabetic(input@[i as int]) || input@[i as int] == '_',
    ensures
        r.1 as int == word_end(input@, i as int),
        r.0@ == spec_word_token(input@.subrange(i as int, word_end(input@, i as int))),
{
    let n = input.unicode_len();
    let mut word = String::new();
    let mut k: usize = i;
    proof {
        assert(word@ =~= input@.subrange(i as int, i as int));
    }
    loop
        invariant
            input@.len() == n as int,
            i <= k && k <= n,
            word_end(input@, i as int) == word_end(input@, k as int),
            word@ == input@.subrange(i as int, k as int),
        ensures
            k as int == word_end(input@, i as int),
            word@ == input@.subrange(i as int, k as int),
        decreases n - k,
    {
        if k >= n {
            break;
        }
        let c = input.get_char(k);
        let keep = char_alphanumeric(c) || c == '_';
        if !keep {
            break;
        }
        word.push(c);
        k = k + 1;
        proof {
            assert(input@.subrange(i as int, k as int) =~= input@.subrange(i as int, k - 1).push(
                input@[k - 1],
            ));
        }
    }
    (classify_word(word), k)
}

pub broadcast proof fn lemma_push_is_add_one(ts: Seq<SpecToken>, t: SpecToken)
    ensures
        #[trigger] ts.push(t) == ts + seq![t],
{
    assert(ts.push(t) =~= ts + seq![t]);
}

/// One ordinary scanning step at `i`: appends the emitted token, if any,
/// and returns where scanning continues and whether a new line starts.
fn scan_one(input: &str, i: usize, tokens: &mut Vec<Token>) -> (r: (usize, bool))
    requires
        (i as int) < input@.len(),
    ensures
        toks_view(final(tokens)@) == toks_view(old(tokens)@) + scan_step(input@, i as int).0,
        r.0 as int == scan_step(input@, i as int).1,
        r.1 == scan_step(input@, i as int).2,
        i < r.0,
        r.0 as int <= input@.len(),
{
    broadcast use lemma_toks_view_push, lemma_push_is_add_one;

    proof {
        lemma_scan_token_step(input@, i as int, seq![0int]);
    }
    let ghost v0 = toks_view(tokens@);
    let n = input.unicode_len();
    let c = input.get_char(i);
    if c == ' ' || c == '\t' {
        let j = consume_whitespace(input, i);
        proof {
            lemma_indent_end_bounds(input@, i as int);
            assert(v0 + Seq::<SpecToken>::empty() =~= v0);
        }
        (j, false)
    } else if c == '\n' || c == '\r' {
        tokens.push(Token::Newline);
        (i + 1, true)
    } else if c == '(' {
        tokens.push(Token::LParen);
        (i + 1, false)
    } else if c == ')' {
        tokens.push(Token::RParen);
        (i + 1, false)
    } else if c == '{' {
        tokens.push(Token::LBrace);
        (i + 1, false)
    } else if c == '}' {
        tokens.push(Token::RBrace);
        (i + 1, false)
    } else if c == '[' {
        tokens.push(Token::LBracket);
        (i + 1, false)
    } else if c == ']' {
        tokens.push(Token::RBracket);
        (i + 1, false)
    } else if c == '+' {
        tokens.push(Token::Plus);
        (i + 1, false)
    } else if c == '-' {
        if i + 1 < n && input.get_char(i + 1) == '>' {
            tokens.push(Token::Arrow);
            (i + 2, false)
        } else {
            tokens.push(Token::Minus);
            (i + 1, false)
        }
    } else if c == '*' {
        if i + 1 < n && input.get_char(i + 1) == '*' {
            tokens.push(Token::DoubleStar);
            (i + 2, false)
        } else {
            tokens.push(Token::Star);
            (i + 1, false)
        }
    } else if c == '/' {
        if i + 1 < n && input.get_char(i + 1) == '/' {
            tokens.push(Token::DoubleSlash);
            (i + 2, false)
        } else {
            tokens.push(Token::Slash);
            (i + 1, false)
        }
    } else if c == '=' {
        if i + 1 < n && input.get_char(i + 1) == '=' {
            tokens.push(Token::DoubleEquals);
            (i + 2, false)
        } else {
            tokens.push(Token::Equals);
            (i + 1, false)
        }
    } else if c == '!' {
        if i + 1 < n && input.get_char(i + 1) == '=' {
            tokens.push(Token::NotEquals);
            (i + 2, false)
        } else {
            proof {
                assert(v0 + Seq::<SpecToken>::empty() =~= v0);
            }
            (i + 1, false)
        }
    } else if c == '<' {
        if i + 1 < n && input.get_char(i + 1) == '=' {
            tokens.push(Token::LessThanOrEqual);
            (i + 2, false)
        } else {
            tokens.push(Token::LessThan);
            (i + 1, false)
        }
    } else if c == '>' {
        if i + 1 < n && input.get_char(i + 1) == '=' {
            tokens.push(Token::GreaterThanOrEqual);
            (i + 2, false)
        } else {
            tokens.push(Token::GreaterThan);
            (i + 1, false)
        }
    } else if c == '\'' || c == '"' {
        let r = consume_string_literal(input, i);
        tokens.push(r.0);
        (r.1, false)
    } else if c == '#' {
        let r = consume_comment(input, i);
        tokens.push(r.0);
        (r.1, false)
    } else if c == ';' {
        tokens.push(Token::Semicolon);
        (i + 1, false)
    } else if c == ':' {
        tokens.push(Token::Colon);
        (i + 1, false)
    } else if c == ',' {
        tokens.push(Token::Comma);
        (i + 1, false)
    } else if c == '%' {
        tokens.push(Token::Percent);
        (i + 1, false)
    } else if c >= '0' && c <= '9' {
        let r = consume_number(input, i);
        tokens.push(r.0);
        (r.1, false)
    } else {
        let alpha = char_alphabetic(c);
        if alpha || c == '_' {
            let r = consume_identifier_or_keyword(input, i);
            tokens.push(r.0);
            (r.1, false)
        } else {
            proof {
                assert(v0 + Seq::<SpecToken>::empty() =~= v0);
            }
            (i + 1, false)
        }
    }
}

/// Scans the whole source text into its raw token stream: indentation is
/// measured at each line start, ordinary tokens follow the scanning rules,
/// and exactly one `EOF` token closes the stream. Total: unrecognized
/// characters are skipped and no input is rejected.
pub fn tokenize(input: &str) -> (tokens: Vec<Token>)
    ensures
        toks_view(tokens@) == spec_tokenize(input@),
{
    broadcast use lemma_toks_view_push, lemma_push_is_add_one;

    let ghost s = input@;
    let n = input.unicode_len();
    let mut tokens: Vec<Token> = Vec::new();
    let mut indent_stack: Vec<u128> = Vec::new();
    indent_stack.push(0);
    let mut at_line_start: bool = true;
    let mut i: usize = 0;
    proof {
        assert(stack_view(indent_stack@) =~= seq![0int]);
        assert(toks_view(tokens@) =~= Seq::<SpecToken>::empty());
        assert(Seq::<SpecToken>::empty() + spec_scan(s, 0, seq![0int], true) =~= spec_scan(
            s,
            0,
            seq![0int],
            true,
        ));
    }
    loop
        invariant
            s == input@,
            n as int == s.len(),
            i <= n,
            stack_wf(stack_view(indent_stack@)),
            spec_tokenize(s) == toks_view(tokens@) + spec_scan(
                s,
                i as int,
                stack_view(indent_stack@),
                at_line_start,
            ),
        ensures
            spec_tokenize(s) == toks_view(tokens@) + seq![SpecToken::EOF],
        decreases n - i,
    {
        if i >= n {
            break;
        }
        let ghost v0 = toks_view(tokens@);
        let ghost stack0 = stack_view(indent_stack@);
        let ch = input.get_char(i);
        if at_line_start {
            let ghost w = indent_width(s, i as int);
            let ghost ind = indent_tokens(stack0, w);
            let j = handle_indentation(input, i, &mut indent_stack, &mut tokens);
            at_line_start = false;
            let ghost stack2 = stack_view(indent_stack@);
            if ch == ' ' || ch == '\t' {
                proof {
                    let rest = spec_scan(s, j as int, stack2, false);
                    assert(spec_scan(s, i as int, stack0, true) == ind + rest);
                    assert(v0 + (ind + rest) =~= (v0 + ind) + rest);
                    lemma_indent_end_bounds(s, i as int);
                }
                i = j;
            } else {
                proof {
                    lemma_scan_token_step(s, i as int, stack2);
                    let st = scan_step(s, i as int);
                    let rest = spec_scan(s, st.1, stack2, st.2);
                    assert(spec_scan(s, i as int, stack0, true) == ind + (st.0 + rest));
                    assert(v0 + (ind + (st.0 + rest)) =~= ((v0 + ind) + st.0) + rest);
                }
                let r = scan_one(input, i, &mut tokens);
                i = r.0;
                at_line_start = r.1;
            }
        } else {
            proof {
                lemma_scan_token_step(s, i as int, stack0);
                let st = scan_step(s, i as int);
                let rest = spec_scan(s, st.1, stack0, st.2);
                assert(spec_scan(s, i as int, stack0, false) == st.0 + rest);
                assert(v0 + (st.0 + rest) =~= (v0 + st.0) + rest);
            }
            let r = scan_one(input, i, &mut tokens);
            i = r.0;
            at_line_start = r.1;
        }
    }
    let ghost before = toks_view(tokens@);
    tokens.push(Token::EOF);
    proof {
        assert(toks_view(tokens@) =~= before + seq![SpecToken::EOF]);
    }
    tokens
}

// ---------- Normalization ----------

impl Token {
    /// A structural copy of the token, equal to the original.
    pub fn duplicate(&self) -> (r: Token)
        ensures
            r == *self,
    {
        match self {
            Token::WhiteSpace => Token::WhiteSpace,
            Token::DefKeyword => Token::DefKeyword,
            Token::ReturnKeyword => Token::ReturnKeyword,
            Token::IfKeyword => Token::IfKeyword,
            Token::ElifKeyword => Token::ElifKeyword,
            Token::ElseKeyword => Token::ElseKeyword,
            Token::ForKeyword => Token::ForKeyword,
            Token::WhileKeyword => Token::WhileKeyword,
            Token::BreakKeyword => Token::BreakKeyword,
            Token::ContinueKeyword => Token::ContinueKeyword,
            Token::PassKeyword => Token::PassKeyword,
            Token::ImportKeyword => Token::ImportKeyword,
            Token::FromKeyword => Token::FromKeyword,
            Token::AsKeyword => Token::AsKeyword,
            Token::TryKeyword => Token::TryKeyword,
            Token::ExceptKeyword => Token::ExceptKeyword,
            Token::FinallyKeyword => Token::FinallyKeyword,
            Token::RaiseKeyword => Token::RaiseKeyword,
            Token::ClassKeyword => Token::ClassKeyword,
            Token::WithKeyword => Token::WithKeyword,
            Token::YieldKeyword => Token::YieldKeyword,
            Token::GlobalKeyword => Token::GlobalKeyword,
            Token::NonlocalKeyword => Token::NonlocalKeyword,
            Token::LambdaKeyword => Token::LambdaKeyword,
            Token::AsyncKeyword => Token::AsyncKeyword,
            Token::AwaitKeyword => Token::AwaitKeyword,
            Token::Plus => Token::Plus,
            Token::Minus => Token::Minus,
            Token::Star => Token::Star,
            Token::Slash => Token::Slash,
            Token::DoubleSlash => Token::DoubleSlash,
            Token::Percent => Token::Percent,
            Token::DoubleStar => Token::DoubleStar,
            Token::Equals => Token::Equals,
            Token::DoubleEquals => Token::DoubleEquals,
            Token::NotEquals => Token::NotEquals,
            Token::LessThan => Token::LessThan,
            Token::GreaterThan => Token::GreaterThan,
            Token::LessThanOrEqual => Token::LessThanOrEqual,
            Token::GreaterThanOrEqual => Token::GreaterThanOrEqual,
            Token::And => Token::And,
            Token::Or => Token::Or,
            Token::Not => Token::Not,
            Token::In => Token::In,
            Token::NotIn => Token::NotIn,
            Token::Is => Token::Is,
            Token::IsNot => Token::IsNot,
            Token::LParen => Token::LParen,
            Token::RParen => Token::RParen,
            Token::LBrace => Token::LBrace,
            Token::RBrace => Token::RBrace,
            Token::LBracket => Token::LBracket,
            Token::RBracket => Token::RBracket,
            Token::Comma => Token::Comma,
            Token::Colon => Token::Colon,
            Token::Dot => Token::Dot,
            Token::Semicolon => Token::Semicolon,
            Token::At => Token::At,
            Token::Arrow => Token::Arrow,
            Token::Ellipsis => Token::Ellipsis,
            Token::Identifier(s) => Token::Identifier(s.clone()),
            Token::Integer(v) => Token::Integer(*v),
            Token::Float(s) => Token::Float(s.clone()),
            Token::StringLiteral(s) => Token::StringLiteral(s.clone()),
            Token::BooleanLiteral(b) => Token::BooleanLiteral(*b),
            Token::NoneLiteral => Token::NoneLiteral,
            Token::Comment(s) => Token::Comment(s.clone()),
            Token::Newline => Token::Newline,
            Token::Indent => Token::Indent,
            Token::Dedent => Token::Dedent,
            Token::EOF => Token::EOF,
        }
    }
}

/// The normalized stream from position `i` on, given the running indent
/// level and whether the last kept token was a `Newline`. Runs of newlines
/// collapse to one, a `Dedent` at level zero is dropped, and comment
/// tokens are stripped so that the parser never sees them.
pub open spec fn spec_clean(ts: Seq<SpecToken>, i: int, level: int, last_nl: bool) -> Seq<
    SpecToken,
>
    decreases ts.len() - i,
{
    if i < 0 || i >= ts.len() {
        Seq::<SpecToken>::empty()
    } else {
        match ts[i] {
            SpecToken::Newline => {
                if last_nl {
                    spec_clean(ts, i + 1, level, true)
                } else {
                    seq![SpecToken::Newline] + spec_clean(ts, i + 1, level, true)
                }
            },
            SpecToken::Indent => seq![SpecToken::Indent] + spec_clean(ts, i + 1, level + 1, false),
            SpecToken::Dedent => {
                if level == 0 {
                    spec_clean(ts, i + 1, level, last_nl)
                } else {
                    seq![SpecToken::Dedent] + spec_clean(ts, i + 1, level - 1, false)
                }
            },
            SpecToken::Comment(_) => spec_clean(ts, i + 1, level, last_nl),
            _ => seq![ts[i]] + spec_clean(ts, i + 1, level, false),
        }
    }
}

/// The whole normalized stream of a raw token stream.
pub open spec fn spec_clean_tokens(ts: Seq<SpecToken>) -> Seq<SpecToken> {
    spec_clean(ts, 0, 0, false)
}

/// Normalizes a raw token stream before parsing: collapses consecutive
/// `Newline` tokens, drops a `Dedent` that would take the indent level
/// below zero, and strips `Comment` tokens.
pub fn clean_tokens(tokens: Vec<Token>) -> (r: Vec<Token>)
    ensures
        toks_view(r@) == spec_clean_tokens(toks_view(tokens@)),
{
    broadcast use lemma_toks_view_push, lemma_push_is_add_one;

    let ghost tv = toks_view(tokens@);
    let n = tokens.len();
    let mut out: Vec<Token> = Vec::new();
    let mut level: usize = 0;
    let mut last_nl: bool = false;
    let mut k: usize = 0;
    proof {
        assert(toks_view(out@) =~= Seq::<SpecToken>::empty());
        assert(Seq::<SpecToken>::empty() + spec_clean(tv, 0, 0, false) =~= spec_clean(
            tv,
            0,
            0,
            false,
        ));
    }
    loop
        invariant
            tv == toks_view(tokens@),
            n == tokens.len(),
            k <= n,
            level <= k,
            spec_clean_tokens(tv) == toks_view(out@) + spec_clean(
                tv,
                k as int,
                level as int,
                last_nl,
            ),
        ensures
            spec_clean_tokens(tv) == toks_view(out@),
        decreases n - k,
    {
        if k >= n {
            proof {
                assert(toks_view(out@) + Seq::<SpecToken>::empty() =~= toks_view(out@));
            }
            break;
        }
        let ghost v0 = toks_view(out@);
        let t = tokens[k].duplicate();
        proof {
            assert(tv[k as int] == tokens@[k as int]@);
        }
        match t {
            Token::Newline => {
                if !last_nl {
                    out.push(Token::Newline);
                    last_nl = true;
                    proof {
                        let rest = spec_clean(tv, k + 1, level as int, true);
                        assert(v0 + (seq![SpecToken::Newline] + rest) =~= (v0 + seq![
                            SpecToken::Newline,
                        ]) + rest);
                    }
                }
            },
            Token::Indent => {
                out.push(Token::Indent);
                level = level + 1;
                last_nl = false;
                proof {
                    let rest = spec_clean(tv, k + 1, level as int, false);
                    assert(v0 + (seq![SpecToken::Indent] + rest) =~= (v0 + seq![
                        SpecToken::Indent,
                    ]) + rest);
                }
            },
            Token::Dedent => {
                if level > 0 {
                    out.push(Token::Dedent);
                    level = level - 1;
                    last_nl = false;
                    proof {
                        let rest = spec_clean(tv, k + 1, level as int, false);
                        assert(v0 + (seq![SpecToken::Dedent] + rest) =~= (v0 + seq![
                            SpecToken::Dedent,
                        ]) + rest);
                    }
                }
            },
            Token::Comment(_) => {},
            other => {
                out.push(other);
                last_nl = false;
                proof {
                    let rest = spec_clean(tv, k + 1, level as int, false);
                    assert(v0 + (seq![tv[k as int]] + rest) =~= (v0 + seq![tv[k as int]]) + rest);
                }
            },
        }
        k = k + 1;
    }
    out
}


// ---------- Laws about indentation structure ----------

/// How many `Indent` tokens a stream holds.
pub open spec fn count_indent(ts: Seq<SpecToken>) -> int
    decreases ts.len(),
{
    if ts.len() == 0 {
        0
    } else {
        count_indent(ts.drop_last()) + (if ts.last() == SpecToken::Indent {
            1int
        } else {
            0int
        })
    }
}

/// How many `Dedent` tokens a stream holds.
pub open spec fn count_dedent(ts: Seq<SpecToken>) -> int
    decreases ts.len(),
{
    if ts.len() == 0 {
        0
    } else {
        count_dedent(ts.drop_last()) + (if ts.last() == SpecToken::Dedent {
            1int
        } else {
            0int
        })
    }
}

pub proof fn lemma_counts_concat(a: Seq<SpecToken>, b: Seq<SpecToken>)
    ensures
        count_indent(a + b) == count_indent(a) + count_indent(b),
        count_dedent(a + b) == count_dedent(a) + count_dedent(b),
    decreases b.len(),
{
    if b.len() == 0 {
        assert(a + b =~= a);
    } else {
        assert((a + b).drop_last() =~= a + b.drop_last());
        assert((a + b).last() == b.last());
        lemma_counts_concat(a, b.drop_last());
    }
}

pub proof fn lemma_counts_single(t: SpecToken)
    ensures
        count_indent(seq![t]) == (if t == SpecToken::Indent {
            1int
        } else {
            0int
        }),
        count_dedent(seq![t]) == (if t == SpecToken::Dedent {
            1int
        } else {
            0int
        }),
{
    let s1 = seq![t];
    assert(s1.len() == 1);
    assert(s1.last() == t);
    assert(s1.drop_last() =~= Seq::<SpecToken>::empty());
    assert(count_indent(s1.drop_last()) == 0);
    assert(count_dedent(s1.drop_last()) == 0);
}

/// Streams without structural tokens count zero on both sides.
pub proof fn lemma_counts_no_structure(ts: Seq<SpecToken>)
    requires
        forall|k: int|
            0 <= k < ts.len() ==> ts[k] != SpecToken::Indent && ts[k] != SpecToken::Dedent,
    ensures
        count_indent(ts) == 0,
        count_dedent(ts) == 0,
    decreases ts.len(),
{
    if ts.len() > 0 {
        lemma_counts_no_structure(ts.drop_last());
    }
}

pub proof fn lemma_dedents_counts(n: int)
    requires
        n >= 0,
    ensures
        count_indent(dedents(n)) == 0,
        count_dedent(dedents(n)) == n,
    decreases n,
{
    if n > 0 {
        assert(dedents(n).drop_last() =~= dedents(n - 1));
        assert(dedents(n).last() == SpecToken::Dedent);
        lemma_dedents_counts(n - 1);
    } else {
        assert(dedents(0) =~= Seq::<SpecToken>::empty());
    }
}

pub proof fn lemma_indent_width_nonneg(s: Seq<char>, i: int)
    ensures
        indent_width(s, i) >= 0,
    decreases s.len() - i,
{
    if !(i < 0 || i >= s.len() || !is_line_ws(s[i])) {
        lemma_indent_width_nonneg(s, i + 1);
    }
}

/// One indentation check emits exactly the difference between the new and
/// the old stack depth, as `Indent` or `Dedent` tokens.
pub proof fn lemma_indent_tokens_counts(stack: Seq<int>, w: int)
    requires
        stack_wf(stack),
        w >= 0,
    ensures
        count_indent(indent_tokens(stack, w)) - count_dedent(indent_tokens(stack, w))
            == stack_after(stack, w).len() - stack.len(),
{
    if stack.len() > 0 && w > stack.last() {
        lemma_counts_single(SpecToken::Indent);
    } else {
        lemma_popped_wf(stack, w);
        lemma_dedents_counts(pop_count(stack, w));
    }
}

/// The indentation stack that remains when the scan from `i` reaches the
/// end of input.
pub open spec fn spec_scan_stack(s: Seq<char>, i: int, stack: Seq<int>, als: bool) -> Seq<int>
    decreases s.len() - i, 1int,
        via spec_scan_stack_dec
{
    if i < 0 || i >= s.len() {
        stack
    } else if als {
        let stack2 = stack_after(stack, indent_width(s, i));
        if is_line_ws(s[i]) {
            spec_scan_stack(s, indent_end(s, i), stack2, false)
        } else {
            spec_scan_token_stack(s, i, stack2)
        }
    } else {
        spec_scan_token_stack(s, i, stack)
    }
}

pub open spec fn spec_scan_token_stack(s: Seq<char>, i: int, stack: Seq<int>) -> Seq<int>
    decreases s.len() - i, 0int,
        via spec_scan_token_stack_dec
{
    if i < 0 || i >= s.len() {
        stack
    } else {
        spec_scan_stack(s, scan_step(s, i).1, stack, scan_step(s, i).2)
    }
}

#[via_fn]
proof fn spec_scan_stack_dec(s: Seq<char>, i: int, stack: Seq<int>, als: bool) {
    if 0 <= i < s.len() {
        lemma_indent_end_bounds(s, i);
    }
}

#[via_fn]
proof fn spec_scan_token_stack_dec(s: Seq<char>, i: int, stack: Seq<int>) {
    if 0 <= i < s.len() {
        lemma_scan_token_step(s, i, stack);
    }
}

/// The stack the whole scan of a source text leaves behind.
pub open spec fn final_indent_stack(s: Seq<char>) -> Seq<int> {
    spec_scan_stack(s, 0, seq![0], true)
}

/// The net indentation depth at end of input, relative to depth zero.
pub open spec fn final_indent_depth(s: Seq<char>) -> int {
    final_indent_stack(s).len() - 1
}

/// One ordinary scanning step emits no `Indent`, `Dedent` or `EOF` token.
pub proof fn lemma_scan_step_no_structure(s: Seq<char>, i: int)
    requires
        0 <= i < s.len(),
    ensures
        forall|k: int|
            0 <= k < scan_step(s, i).0.len() ==> scan_step(s, i).0[k] != SpecToken::Indent
                && scan_step(s, i).0[k] != SpecToken::Dedent && scan_step(s, i).0[k]
                != SpecToken::EOF,
{
}

pub proof fn lemma_scan_balance(s: Seq<char>, i: int, stack: Seq<int>, als: bool)
    requires
        0 <= i <= s.len(),
        stack_wf(stack),
    ensures
        count_indent(spec_scan(s, i, stack, als)) - count_dedent(spec_scan(s, i, stack, als))
            == spec_scan_stack(s, i, stack, als).len() - stack.len(),
    decreases s.len() - i, 1int,
{
    if i >= s.len() {
        lemma_counts_single(SpecToken::EOF);
        assert(seq![SpecToken::EOF] =~= seq![SpecToken::EOF]);
    } else if als {
        let w = indent_width(s, i);
        lemma_indent_width_nonneg(s, i);
        lemma_indent_tokens_counts(stack, w);
        lemma_stack_after_wf(stack, w);
        let stack2 = stack_after(stack, w);
        if is_line_ws(s[i]) {
            lemma_indent_end_bounds(s, i);
            lemma_scan_balance(s, indent_end(s, i), stack2, false);
            lemma_counts_concat(
                indent_tokens(stack, w),
                spec_scan(s, indent_end(s, i), stack2, false),
            );
        } else {
            lemma_scan_token_balance(s, i, stack2);
            lemma_counts_concat(indent_tokens(stack, w), spec_scan_token(s, i, stack2));
        }
    } else {
        lemma_scan_token_balance(s, i, stack);
    }
}

pub proof fn lemma_scan_token_balance(s: Seq<char>, i: int, stack: Seq<int>)
    requires
        0 <= i < s.len(),
        stack_wf(stack),
    ensures
        count_indent(spec_scan_token(s, i, stack)) - count_dedent(spec_scan_token(s, i, stack))
            == spec_scan_token_stack(s, i, stack).len() - stack.len(),
    decreases s.len() - i, 0int,
{
    lemma_scan_token_step(s, i, stack);
    let st = scan_step(s, i);
    lemma_scan_step_no_structure(s, i);
    lemma_counts_no_structure(st.0);
    lemma_counts_concat(st.0, spec_scan(s, st.1, stack, st.2));
    lemma_scan_balance(s, st.1, stack, st.2);
}

/// Law: over any source text, the number of `Indent` tokens minus the
/// number of `Dedent` tokens the lexer emits equals the net indentation
/// depth at end of input, relative to depth zero.
pub proof fn lemma_indent_dedent_balance(s: Seq<char>)
    ensures
        count_indent(spec_tokenize(s)) - count_dedent(spec_tokenize(s)) == final_indent_depth(s),
{
    lemma_scan_balance(s, 0, seq![0], true);
}

/// No line of the source text starts with indentation: neither the first
/// line nor any line after a newline character opens with a space or tab.
pub open spec fn no_indentation(s: Seq<char>) -> bool {
    &&& s.len() > 0 ==> !is_line_ws(s[0])
    &&& forall|j: int| 0 < j < s.len() && is_nl_char(s[j - 1]) ==> !is_line_ws(s[j])
}

pub proof fn lemma_no_indent_scan(s: Seq<char>, i: int, als: bool)
    requires
        no_indentation(s),
        0 <= i <= s.len(),
        als ==> i == 0 || (0 < i && is_nl_char(s[i - 1])),
    ensures
        count_indent(spec_scan(s, i, seq![0], als)) == 0,
        count_dedent(spec_scan(s, i, seq![0], als)) == 0,
    decreases s.len() - i, 1int,
{
    let stack: Seq<int> = seq![0];
    if i >= s.len() {
        lemma_counts_single(SpecToken::EOF);
    } else if als {
        // a line start has no leading whitespace, so the measured width is
        // zero and the stack of one zero entry stays as it is
        assert(!is_line_ws(s[i]));
        let w = indent_width(s, i);
        assert(w == 0);
        assert(stack_after(stack, 0) =~= stack);
        assert(indent_tokens(stack, 0) =~= Seq::<SpecToken>::empty());
        lemma_no_indent_token(s, i);
        lemma_counts_concat(Seq::<SpecToken>::empty(), spec_scan_token(s, i, stack));
    } else {
        lemma_no_indent_token(s, i);
    }
}

pub proof fn lemma_no_indent_token(s: Seq<char>, i: int)
    requires
        no_indentation(s),
        0 <= i < s.len(),
    ensures
        count_indent(spec_scan_token(s, i, seq![0])) == 0,
        count_dedent(spec_scan_token(s, i, seq![0])) == 0,
    decreases s.len() - i, 0int,
{
    let stack: Seq<int> = seq![0];
    lemma_scan_token_step(s, i, stack);
    let st = scan_step(s, i);
    lemma_scan_step_no_structure(s, i);
    lemma_counts_no_structure(st.0);
    lemma_counts_concat(st.0, spec_scan(s, st.1, stack, st.2));
    assert(st.2 ==> st.1 == i + 1 && is_nl_char(s[i]));
    lemma_no_indent_scan(s, st.1, st.2);
}

/// Law: a source text with no indentation yields no `Indent` and no
/// `Dedent` token at all.
pub proof fn lemma_no_indentation_no_structure(s: Seq<char>)
    requires
        no_indentation(s),
    ensures
        count_indent(spec_tokenize(s)) == 0,
        count_dedent(spec_tokenize(s)) == 0,
{
    lemma_no_indent_scan(s, 0, true);
}


/// The stream ends with an `EOF` token and holds no other.
pub open spec fn ends_with_single_eof(ts: Seq<SpecToken>) -> bool {
    &&& ts.len() >= 1
    &&& ts.last() == SpecToken::EOF
    &&& forall|k: int| 0 <= k < ts.len() - 1 ==> ts[k] != SpecToken::EOF
}

pub proof fn lemma_prepend_non_eof(e: Seq<SpecToken>, rest: Seq<SpecToken>)
    requires
        forall|k: int| 0 <= k < e.len() ==> e[k] != SpecToken::EOF,
        ends_with_single_eof(rest),
    ensures
        ends_with_single_eof(e + rest),
{
    assert((e + rest).last() == rest.last());
    assert forall|k: int| 0 <= k < (e + rest).len() - 1 implies (e + rest)[k]
        != SpecToken::EOF by {
        if k < e.len() {
            assert((e + rest)[k] == e[k]);
        } else {
            assert((e + rest)[k] == rest[k - e.len()]);
        }
    }
}

pub proof fn lemma_scan_single_eof(s: Seq<char>, i: int, stack: Seq<int>, als: bool)
    requires
        0 <= i <= s.len(),
    ensures
        ends_with_single_eof(spec_scan(s, i, stack, als)),
    decreases s.len() - i, 1int,
{
    if i >= s.len() {
        assert(seq![SpecToken::EOF].last() == SpecToken::EOF);
    } else if als {
        let w = indent_width(s, i);
        let ind = indent_tokens(stack, w);
        let stack2 = stack_after(stack, w);
        assert(forall|k: int| 0 <= k < ind.len() ==> ind[k] != SpecToken::EOF);
        if is_line_ws(s[i]) {
            lemma_indent_end_bounds(s, i);
            lemma_scan_single_eof(s, indent_end(s, i), stack2, false);
            lemma_prepend_non_eof(ind, spec_scan(s, indent_end(s, i), stack2, false));
        } else {
            lemma_scan_token_single_eof(s, i, stack2);
            lemma_prepend_non_eof(ind, spec_scan_token(s, i, stack2));
        }
    } else {
        lemma_scan_token_single_eof(s, i, stack);
    }
}

pub proof fn lemma_scan_token_single_eof(s: Seq<char>, i: int, stack: Seq<int>)
    requires
        0 <= i < s.len(),
    ensures
        ends_with_single_eof(spec_scan_token(s, i, stack)),
    decreases s.len() - i, 0int,
{
    lemma_scan_token_step(s, i, stack);
    let st = scan_step(s, i);
    lemma_scan_step_no_structure(s, i);
    lemma_scan_single_eof(s, st.1, stack, st.2);
    lemma_prepend_non_eof(st.0, spec_scan(s, st.1, stack, st.2));
}

/// Law: the raw token stream of any source text ends with exactly one
/// `EOF` token.
pub proof fn lemma_tokenize_single_eof(s: Seq<char>)
    ensures
        ends_with_single_eof(spec_tokenize(s)),
{
    lemma_scan_single_eof(s, 0, seq![0], true);
}

} // verus!
