//! Byte-level lexer.
//!
//! `scan` turns source bytes into a vector of tokens that always ends in
//! exactly one `EOF` sentinel. Whitespace and `//` comments are skipped;
//! newlines advance the line counter; string and number literals carry their
//! decoded value; identifiers are looked up in the keyword table. An
//! unrecognised byte, an unterminated string or an oversized number literal
//! is recorded as a diagnostic and scanning continues.

use vstd::prelude::*;
use crate::num::{Num, fits, norm, MAX_DEN, MAX_MAG};

verus! {

/// The closed set of token tags.
#[derive(Debug, Eq, PartialEq, Clone, Copy, Structural)]
pub enum TokenType {
    // Single-character tokens.
    LeftParen,
    RightParen,
    LeftBrace,
    RightBrace,
    Comma,
    Dot,
    Minus,
    Plus,
    Semicolon,
    Slash,
    Star,
    // One or two character tokens.
    Bang,
    BangEqual,
    Equal,
    EqualEqual,
    Greater,
    GreaterEqual,
    Less,
    LessEqual,
    // Literals.
    Identifier,
    String,
    Number,
    // Keywords.
    And,
    Class,
    Else,
    False,
    Fun,
    For,
    If,
    Nil,
    Or,
    Print,
    Return,
    Super,
    This,
    True,
    Var,
    While,
    EOF,
}

/// The decoded payload of a string or number token.
#[derive(Debug, Clone, PartialEq)]
pub enum Literal {
    String(Vec<u8>),
    Number(Num),
}

/// One scanned token: its tag, raw lexeme bytes, position, and payload.
#[derive(Debug, Clone, PartialEq)]
pub struct Token {
    pub token_type: TokenType,
    pub lexeme: Vec<u8>,
    pub line: usize,
    pub literal: Option<Literal>,
    pub column: usize,
}

/// What a scanning diagnostic reports.
#[derive(Debug, Eq, PartialEq, Clone, Copy, Structural)]
pub enum ScanErrorKind {
    UnrecognisedCharacter,
    UnterminatedString,
    NumberTooLarge,
}

/// A diagnostic: scanning goes on after recording one.
#[derive(Debug, Eq, PartialEq, Clone, Copy, Structural)]
pub struct ScanError {
    pub kind: ScanErrorKind,
    pub line: usize,
    pub column: usize,
}

/// Mathematical image of a token.
#[verifier::ext_equal]
pub struct TokenS {
    pub token_type: TokenType,
    pub lexeme: Seq<u8>,
    pub line: int,
    pub literal: Option<LitS>,
    pub column: int,
}

/// Mathematical image of a literal payload.
#[verifier::ext_equal]
pub enum LitS {
    Str(Seq<u8>),
    Num((int, int)),
}

/// Mathematical image of a diagnostic.
#[verifier::ext_equal]
pub struct ScanErrS {
    pub kind: ScanErrorKind,
    pub line: int,
    pub column: int,
}

/// The image of an executable token.
pub open spec fn token_view(t: Token) -> TokenS {
    TokenS {
        token_type: t.token_type,
        lexeme: t.lexeme@,
        line: t.line as int,
        literal: match t.literal {
            Option::None => Option::None,
            Option::Some(Literal::String(s)) => Option::Some(LitS::Str(s@)),
            Option::Some(Literal::Number(x)) => Option::Some(LitS::Num(x.frac())),
        },
        column: t.column as int,
    }
}

/// The image of a token vector.
pub open spec fn toks_view(s: Seq<Token>) -> Seq<TokenS> {
    Seq::new(s.len(), |i: int| token_view(s[i]))
}

/// The image of an executable diagnostic.
pub open spec fn err_view(e: ScanError) -> ScanErrS {
    ScanErrS { kind: e.kind, line: e.line as int, column: e.column as int }
}

/// The image of a diagnostic vector.
pub open spec fn errs_view(s: Seq<ScanError>) -> Seq<ScanErrS> {
    Seq::new(s.len(), |i: int| err_view(s[i]))
}

/// ASCII decimal digit.
pub open spec fn is_digit(c: u8) -> bool {
    48 <= c <= 57
}

/// ASCII letter or underscore: what may start an identifier.
pub open spec fn is_alpha(c: u8) -> bool {
    (65 <= c <= 90) || (97 <= c <= 122) || c == 95
}

/// What may continue an identifier.
pub open spec fn is_alnum(c: u8) -> bool {
    is_alpha(c) || is_digit(c)
}

/// The keyword table: the tag of an identifier lexeme.
pub open spec fn keyword_type(s: Seq<u8>) -> TokenType {
    if s == seq![97u8, 110u8, 100u8] {
        TokenType::And
    } else if s == seq![99u8, 108u8, 97u8, 115u8, 115u8] {
        TokenType::Class
    } else if s == seq![101u8, 108u8, 115u8, 101u8] {
        TokenType::Else
    } else if s == seq![102u8, 97u8, 108u8, 115u8, 101u8] {
        TokenType::False
    } else if s == seq![102u8, 111u8, 114u8] {
        TokenType::For
    } else if s == seq![102u8, 117u8, 110u8] {
        TokenType::Fun
    } else if s == seq![105u8, 102u8] {
        TokenType::If
    } else if s == seq![110u8, 105u8, 108u8] {
        TokenType::Nil
    } else if s == seq![111u8, 114u8] {
        TokenType::Or
    } else if s == seq![112u8, 114u8, 105u8, 110u8, 116u8] {
        TokenType::Print
    } else if s == seq![114u8, 101u8, 116u8, 117u8, 114u8, 110u8] {
        TokenType::Return
    } else if s == seq![115u8, 117u8, 112u8, 101u8, 114u8] {
        TokenType::Super
    } else if s == seq![116u8, 104u8, 105u8, 115u8] {
        TokenType::This
    } else if s == seq![116u8, 114u8, 117u8, 101u8] {
        TokenType::True
    } else if s == seq![118u8, 97u8, 114u8] {
        TokenType::Var
    } else if s == seq![119u8, 104u8, 105u8, 108u8, 101u8] {
        TokenType::While
    } else {
        TokenType::Identifier
    }
}

/// First position at or after `i` that does not hold a digit.
pub open spec fn digits_end(src: Seq<u8>, i: int) -> int
    decreases src.len() - i when 0 <= i <= src.len()
{
    if i >= src.len() || !is_digit(src[i]) {
        i
    } else {
        digits_end(src, i + 1)
    }
}

/// First position at or after `i` that cannot continue an identifier.
pub open spec fn ident_end(src: Seq<u8>, i: int) -> int
    decreases src.len() - i when 0 <= i <= src.len()
{
    if i >= src.len() || !is_alnum(src[i]) {
        i
    } else {
        ident_end(src, i + 1)
    }
}

/// First position at or after `i` that holds a newline, or the end.
pub open spec fn comment_end(src: Seq<u8>, i: int) -> int
    decreases src.len() - i when 0 <= i <= src.len()
{
    if i >= src.len() || src[i] == 10 {
        i
    } else {
        comment_end(src, i + 1)
    }
}

/// Where a string body that starts at `i` ends: the position after the
/// closing quote (`closed`), or the end of input (not `closed`); `line` is
/// advanced over embedded newlines.
#[verifier::ext_equal]
pub struct StrScan {
    pub end: int,
    pub line: int,
    pub closed: bool,
}

pub open spec fn str_scan(src: Seq<u8>, i: int, line: int) -> StrScan
    decreases src.len() - i when 0 <= i <= src.len()
{
    if i >= src.len() {
        StrScan { end: i, line, closed: false }
    } else if src[i] == 34 {
        StrScan { end: i + 1, line, closed: true }
    } else {
        str_scan(src, i + 1, if src[i] == 10 { line + 1 } else { line })
    }
}

/// Value of the digit run `src[i .. j)` read as a decimal numeral.
pub open spec fn digits_val(src: Seq<u8>, i: int, j: int) -> int
    decreases j - i when i <= j
{
    if j <= i {
        0
    } else {
        digits_val(src, i, j - 1) * 10 + (src[j - 1] - 48)
    }
}

/// Ten to the `k`.
pub open spec fn pow10(k: int) -> int
    decreases k when k >= 0
{
    if k <= 0 {
        1
    } else {
        10 * pow10(k - 1)
    }
}

/// What one scanning step, starting at `pos`, produces.
#[verifier::ext_equal]
pub struct ScanStep {
    pub tok: Option<TokenS>,
    pub err: Option<ScanErrS>,
    pub pos2: int,
    pub line2: int,
}

/// A step that emits the token `t` and consumes `src[pos .. pos2)`.
pub open spec fn tok_step(src: Seq<u8>, pos: int, line: int, pos2: int, t: TokenType) -> ScanStep {
    ScanStep {
        tok: Option::Some(
            TokenS {
                token_type: t,
                lexeme: src.subrange(pos, pos2),
                line,
                literal: Option::None,
                column: pos,
            },
        ),
        err: Option::None,
        pos2,
        line2: line,
    }
}

/// A step that records the diagnostic `kind` and consumes up to `pos2`.
pub open spec fn err_step(pos: int, line: int, pos2: int, kind: ScanErrorKind) -> ScanStep {
    ScanStep {
        tok: Option::None,
        err: Option::Some(ScanErrS { kind, line, column: pos }),
        pos2,
        line2: line,
    }
}

/// The number-literal step starting at `pos` (which holds a digit).
pub open spec fn number_step(src: Seq<u8>, pos: int, line: int) -> ScanStep {
    let e1 = digits_end(src, pos + 1);
    let has_frac = e1 + 1 < src.len() && src[e1] == 46 && is_digit(src[e1 + 1]);
    let e2 = if has_frac {
        digits_end(src, e1 + 1)
    } else {
        e1
    };
    let mantissa = if has_frac {
        digits_val(src, pos, e1) * pow10(e2 - (e1 + 1)) + digits_val(src, e1 + 1, e2)
    } else {
        digits_val(src, pos, e1)
    };
    let den = if has_frac {
        pow10(e2 - (e1 + 1))
    } else {
        1
    };
    if mantissa <= MAX_MAG as int && den <= MAX_DEN as int {
        ScanStep {
            tok: Option::Some(
                TokenS {
                    token_type: TokenType::Number,
                    lexeme: src.subrange(pos, e2),
                    line,
                    literal: Option::Some(LitS::Num(norm(mantissa, den))),
                    column: pos,
                },
            ),
            err: Option::None,
            pos2: e2,
            line2: line,
        }
    } else {
        err_step(pos, line, e2, ScanErrorKind::NumberTooLarge)
    }
}

/// One scanning step at `pos`.
pub open spec fn scan_step(src: Seq<u8>, pos: int, line: int) -> ScanStep
    recommends
        0 <= pos < src.len(),
{
    let c = src[pos];
    if c == 59 {
        tok_step(src, pos, line, pos + 1, TokenType::Semicolon)
    } else if c == 123 {
        tok_step(src, pos, line, pos + 1, TokenType::LeftBrace)
    } else if c == 125 {
        tok_step(src, pos, line, pos + 1, TokenType::RightBrace)
    } else if c == 40 {
        tok_step(src, pos, line, pos + 1, TokenType::LeftParen)
    } else if c == 41 {
        tok_step(src, pos, line, pos + 1, TokenType::RightParen)
    } else if c == 44 {
        tok_step(src, pos, line, pos + 1, TokenType::Comma)
    } else if c == 46 {
        tok_step(src, pos, line, pos + 1, TokenType::Dot)
    } else if c == 45 {
        tok_step(src, pos, line, pos + 1, TokenType::Minus)
    } else if c == 43 {
        tok_step(src, pos, line, pos + 1, TokenType::Plus)
    } else if c == 42 {
        tok_step(src, pos, line, pos + 1, TokenType::Star)
    } else if c == 61 {
        if pos + 1 < src.len() && src[pos + 1] == 61 {
            tok_step(src, pos, line, pos + 2, TokenType::EqualEqual)
        } else {
            tok_step(src, pos, line, pos + 1, TokenType::Equal)
        }
    } else if c == 33 {
        if pos + 1 < src.len() && src[pos + 1] == 61 {
            tok_step(src, pos, line, pos + 2, TokenType::BangEqual)
        } else {
            tok_step(src, pos, line, pos + 1, TokenType::Bang)
        }
    } else if c == 62 {
        if pos + 1 < src.len() && src[pos + 1] == 61 {
            tok_step(src, pos, line, pos + 2, TokenType::GreaterEqual)
        } else {
            tok_step(src, pos, line, pos + 1, TokenType::Greater)
        }
    } else if c == 60 {
        if pos + 1 < src.len() && src[pos + 1] == 61 {
            tok_step(src, pos, line, pos + 2, TokenType::LessEqual)
        } else {
            tok_step(src, pos, line, pos + 1, TokenType::Less)
        }
    } else if c == 34 {
        let s = str_scan(src, pos + 1, line);
        if s.closed {
            ScanStep {
                tok: Option::Some(
                    TokenS {
                        token_type: TokenType::String,
                        lexeme: src.subrange(pos, s.end),
                        line: s.line,
                        literal: Option::Some(LitS::Str(src.subrange(pos + 1, s.end - 1))),
                        column: pos,
                    },
                ),
                err: Option::None,
                pos2: s.end,
                line2: s.line,
            }
        } else {
            ScanStep {
                tok: Option::None,
                err: Option::Some(
                    ScanErrS { kind: ScanErrorKind::UnterminatedString, line: s.line, column: pos },
                ),
                pos2: s.end,
                line2: s.line,
            }
        }
    } else if c == 47 {
        if pos + 1 < src.len() && src[pos + 1] == 47 {
            ScanStep {
                tok: Option::None,
                err: Option::None,
                pos2: comment_end(src, pos + 2),
                line2: line,
            }
        } else {
            tok_step(src, pos, line, pos + 1, TokenType::Slash)
        }
    } else if c == 10 {
        ScanStep { tok: Option::None, err: Option::None, pos2: pos + 1, line2: line + 1 }
    } else if c == 32 || c == 9 || c == 13 {
        ScanStep { tok: Option::None, err: Option::None, pos2: pos + 1, line2: line }
    } else if is_digit(c) {
        number_step(src, pos, line)
    } else if is_alpha(c) {
        let e = ident_end(src, pos + 1);
        tok_step(src, pos, line, e, keyword_type(src.subrange(pos, e)))
    } else {
        err_step(pos, line, pos + 1, ScanErrorKind::UnrecognisedCharacter)
    }
}

/// A token as a one-element sequence, or nothing.
pub open spec fn opt_tok(t: Option<TokenS>) -> Seq<TokenS> {
    match t {
        Option::Some(x) => seq![x],
        Option::None => Seq::empty(),
    }
}

/// A diagnostic as a one-element sequence, or nothing.
pub open spec fn opt_err(e: Option<ScanErrS>) -> Seq<ScanErrS> {
    match e {
        Option::Some(x) => seq![x],
        Option::None => Seq::empty(),
    }
}

/// The `EOF` sentinel appended when input is exhausted.
pub open spec fn eof_tok(src: Seq<u8>, line: int) -> TokenS {
    TokenS {
        token_type: TokenType::EOF,
        lexeme: Seq::empty(),
        line,
        literal: Option::None,
        column: src.len() as int,
    }
}

/// Everything scanning from `pos` onward produces.
#[verifier::ext_equal]
pub struct ScanOut {
    pub toks: Seq<TokenS>,
    pub errs: Seq<ScanErrS>,
}

pub open spec fn scan_all(src: Seq<u8>, pos: int, line: int) -> ScanOut
    decreases src.len() - pos when 0 <= pos <= src.len()
{
    if pos >= src.len() {
        ScanOut { toks: seq![eof_tok(src, line)], errs: Seq::empty() }
    } else {
        let s = scan_step(src, pos, line);
        let p2 = if s.pos2 <= pos {
            pos + 1
        } else if s.pos2 > src.len() {
            src.len() as int
        } else {
            s.pos2
        };
        let rest = scan_all(src, p2, s.line2);
        ScanOut { toks: opt_tok(s.tok) + rest.toks, errs: opt_err(s.err) + rest.errs }
    }
}

/// `digits_end` stays within the input and brackets a run of digits.
pub proof fn lemma_digits_end_bounds(src: Seq<u8>, i: int)
    requires
        0 <= i <= src.len(),
    ensures
        i <= digits_end(src, i) <= src.len(),
        forall|k: int| i <= k < digits_end(src, i) ==> is_digit(src[k]),
    decreases src.len() - i,
{
    if !(i >= src.len() || !is_digit(src[i])) {
        lemma_digits_end_bounds(src, i + 1);
    }
}

/// `pow10` is positive.
pub proof fn lemma_pow10_pos(k: int)
    requires
        k >= 0,
    ensures
        pow10(k) >= 1,
    decreases k,
{
    if k > 0 {
        lemma_pow10_pos(k - 1);
    }
}

/// The value of a digit run is non-negative.
pub proof fn lemma_digits_val_nonneg(src: Seq<u8>, i: int, j: int)
    requires
        i <= j,
        forall|k: int| i <= k < j ==> is_digit(src[k]),
    ensures
        digits_val(src, i, j) >= 0,
    decreases j - i,
{
    if j > i {
        lemma_digits_val_nonneg(src, i, j - 1);
    }
}

/// `ident_end` stays within the input.
pub proof fn lemma_ident_end_bounds(src: Seq<u8>, i: int)
    requires
        0 <= i <= src.len(),
    ensures
        i <= ident_end(src, i) <= src.len(),
        forall|k: int| i <= k < ident_end(src, i) ==> is_alnum(src[k]),
    decreases src.len() - i,
{
    if !(i >= src.len() || !is_alnum(src[i])) {
        lemma_ident_end_bounds(src, i + 1);
    }
}

/// `comment_end` stays within the input.
pub proof fn lemma_comment_end_bounds(src: Seq<u8>, i: int)
    requires
        0 <= i <= src.len(),
    ensures
        i <= comment_end(src, i) <= src.len(),
    decreases src.len() - i,
{
    if !(i >= src.len() || src[i] == 10) {
        lemma_comment_end_bounds(src, i + 1);
    }
}

/// `str_scan` stays within the input and advances the line counter by at
/// most one per consumed byte.
pub proof fn lemma_str_scan_bounds(src: Seq<u8>, i: int, line: int)
    requires
        0 <= i <= src.len(),
    ensures
        i <= str_scan(src, i, line).end <= src.len(),
        line <= str_scan(src, i, line).line <= line + (str_scan(src, i, line).end - i),
    decreases src.len() - i,
{
    if i < src.len() && src[i] != 34 {
        lemma_str_scan_bounds(src, i + 1, if src[i] == 10 { line + 1 } else { line });
    }
}

/// A scanning step consumes at least one byte, stays within the input, and
/// advances the line counter by at most one per consumed byte.
pub proof fn lemma_scan_step_bounds(src: Seq<u8>, pos: int, line: int)
    requires
        0 <= pos < src.len(),
    ensures
        pos < scan_step(src, pos, line).pos2 <= src.len(),
        line <= scan_step(src, pos, line).line2 <= line + (scan_step(src, pos, line).pos2 - pos),
{
    let c = src[pos];
    if c == 34 {
        lemma_str_scan_bounds(src, pos + 1, line);
    } else if c == 47 && pos + 1 < src.len() && src[pos + 1] == 47 {
        lemma_comment_end_bounds(src, pos + 2);
    } else if is_digit(c) {
        lemma_digits_end_bounds(src, pos + 1);
        let e1 = digits_end(src, pos + 1);
        if e1 + 1 < src.len() && src[e1] == 46 && is_digit(src[e1 + 1]) {
            lemma_digits_end_bounds(src, e1 + 1);
        }
    } else if is_alpha(c) {
        lemma_ident_end_bounds(src, pos + 1);
    }
}

/// Unfolding `scan_all` one step from a position inside the input.
pub proof fn lemma_scan_all_step(src: Seq<u8>, pos: int, line: int)
    requires
        0 <= pos < src.len(),
    ensures
        scan_all(src, pos, line).toks == opt_tok(scan_step(src, pos, line).tok) + scan_all(
            src,
            scan_step(src, pos, line).pos2,
            scan_step(src, pos, line).line2,
        ).toks,
        scan_all(src, pos, line).errs == opt_err(scan_step(src, pos, line).err) + scan_all(
            src,
            scan_step(src, pos, line).pos2,
            scan_step(src, pos, line).line2,
        ).errs,
{
    lemma_scan_step_bounds(src, pos, line);
}

/// A scanning step never emits the `EOF` tag.
proof fn lemma_scan_step_not_eof(src: Seq<u8>, pos: int, line: int)
    requires
        0 <= pos < src.len(),
    ensures
        scan_step(src, pos, line).tok matches Option::Some(t) ==> t.token_type != TokenType::EOF,
{
    let c = src[pos];
    if is_alpha(c) && !(c == 34 || c == 47 || c == 10 || c == 32 || c == 9 || c == 13 || is_digit(
        c,
    )) {
        let e = ident_end(src, pos + 1);
        assert(keyword_type(src.subrange(pos, e)) != TokenType::EOF);
    }
}

/// Law: every token vector the scanner produces ends in exactly one `EOF`.
pub proof fn lemma_eof_sentinel(src: Seq<u8>, pos: int, line: int)
    requires
        0 <= pos <= src.len(),
    ensures
        scan_all(src, pos, line).toks.len() >= 1,
        scan_all(src, pos, line).toks.last().token_type == TokenType::EOF,
        forall|i: int|
            0 <= i < scan_all(src, pos, line).toks.len() - 1 ==> scan_all(
                src,
                pos,
                line,
            ).toks[i].token_type != TokenType::EOF,
    decreases src.len() - pos,
{
    if pos >= src.len() {
    } else {
        let s = scan_step(src, pos, line);
        lemma_scan_step_bounds(src, pos, line);
        lemma_scan_step_not_eof(src, pos, line);
        lemma_eof_sentinel(src, s.pos2, s.line2);
    }
}

/// What stripping whitespace and comments leaves of the source: string
/// literals are kept whole, every other surviving byte is kept one by one.
pub open spec fn strip(src: Seq<u8>, pos: int) -> Seq<u8>
    decreases src.len() - pos when 0 <= pos <= src.len()
{
    if pos >= src.len() {
        Seq::empty()
    } else if src[pos] == 32 || src[pos] == 9 || src[pos] == 13 || src[pos] == 10 {
        strip(src, pos + 1)
    } else if src[pos] == 47 && pos + 1 < src.len() && src[pos + 1] == 47 {
        let e = comment_end(src, pos + 2);
        strip(src, if e > src.len() { src.len() as int } else if e < pos + 2 { pos + 2 } else { e })
    } else if src[pos] == 34 {
        let s = str_scan(src, pos + 1, 0);
        let e = if s.end > src.len() {
            src.len() as int
        } else if s.end < pos + 1 {
            pos + 1
        } else {
            s.end
        };
        src.subrange(pos, e) + strip(src, e)
    } else {
        seq![src[pos]] + strip(src, pos + 1)
    }
}

/// Concatenation of the lexemes of a token sequence, in order.
pub open spec fn concat_lexemes(toks: Seq<TokenS>) -> Seq<u8>
    decreases toks.len(),
{
    if toks.len() == 0 {
        Seq::empty()
    } else {
        toks[0].lexeme + concat_lexemes(toks.skip(1))
    }
}

/// The end and closedness of a string body do not depend on the incoming
/// line number.
proof fn lemma_str_scan_line_irrel(src: Seq<u8>, i: int, l1: int, l2: int)
    requires
        0 <= i <= src.len(),
    ensures
        str_scan(src, i, l1).end == str_scan(src, i, l2).end,
        str_scan(src, i, l1).closed == str_scan(src, i, l2).closed,
    decreases src.len() - i,
{
    if i < src.len() && src[i] != 34 {
        lemma_str_scan_line_irrel(
            src,
            i + 1,
            if src[i] == 10 { l1 + 1 } else { l1 },
            if src[i] == 10 { l2 + 1 } else { l2 },
        );
    }
}

/// A byte that is kept one by one by `strip`: not whitespace, not a quote,
/// not a slash.
pub open spec fn is_plain(c: u8) -> bool {
    c != 32 && c != 9 && c != 13 && c != 10 && c != 34 && c != 47
}

/// Over a run of plain bytes, `strip` keeps the run verbatim.
proof fn lemma_strip_run(src: Seq<u8>, a: int, b: int)
    requires
        0 <= a <= b <= src.len(),
        forall|k: int| a <= k < b ==> is_plain(src[k]),
    ensures
        strip(src, a) == src.subrange(a, b) + strip(src, b),
    decreases b - a,
{
    if a == b {
        assert(strip(src, a) =~= src.subrange(a, b) + strip(src, b));
    } else {
        lemma_strip_run(src, a + 1, b);
        assert(strip(src, a) =~= src.subrange(a, b) + strip(src, b));
    }
}

/// Law: when scanning reports no diagnostic, the concatenation of the token
/// lexemes, in order, is the source with whitespace and comments removed.
pub proof fn lemma_round_trip(src: Seq<u8>, pos: int, line: int)
    requires
        0 <= pos <= src.len(),
        scan_all(src, pos, line).errs.len() == 0,
    ensures
        concat_lexemes(scan_all(src, pos, line).toks) == strip(src, pos),
    decreases src.len() - pos,
{
    if pos >= src.len() {
        let toks = scan_all(src, pos, line).toks;
        assert(toks =~= seq![eof_tok(src, line)]);
        assert(toks.skip(1) =~= Seq::<TokenS>::empty());
        assert(concat_lexemes(toks.skip(1)) == Seq::<u8>::empty());
        assert(concat_lexemes(toks) =~= strip(src, pos));
    } else {
        let s = scan_step(src, pos, line);
        lemma_scan_step_bounds(src, pos, line);
        let p2 = s.pos2;
        let rest = scan_all(src, p2, s.line2);
        assert(scan_all(src, pos, line).errs == opt_err(s.err) + rest.errs);
        assert(s.err is None && rest.errs.len() == 0) by {
            if s.err is Some {
                assert(scan_all(src, pos, line).errs.len() >= 1);
            }
        }
        lemma_round_trip(src, p2, s.line2);
        let c = src[pos];
        if c == 32 || c == 9 || c == 13 || c == 10 {
            assert(scan_all(src, pos, line).toks =~= rest.toks);
            assert(strip(src, pos) == strip(src, p2));
            assert(concat_lexemes(scan_all(src, pos, line).toks) =~= strip(src, pos));
        } else if c == 47 && pos + 1 < src.len() && src[pos + 1] == 47 {
            lemma_comment_end_bounds(src, pos + 2);
            assert(scan_all(src, pos, line).toks =~= rest.toks);
            assert(strip(src, pos) == strip(src, p2));
            assert(concat_lexemes(scan_all(src, pos, line).toks) =~= strip(src, pos));
        } else if c == 34 {
            lemma_str_scan_bounds(src, pos + 1, line);
            lemma_str_scan_line_irrel(src, pos + 1, line, 0);
            let ss = str_scan(src, pos + 1, line);
            assert(ss.closed);
            assert(scan_all(src, pos, line).toks == seq![s.tok.unwrap()] + rest.toks);
            assert(concat_lexemes(seq![s.tok.unwrap()] + rest.toks) == s.tok.unwrap().lexeme
                + concat_lexemes(rest.toks)) by {
                assert((seq![s.tok.unwrap()] + rest.toks).skip(1) =~= rest.toks);
            }
            assert(concat_lexemes(scan_all(src, pos, line).toks) =~= strip(src, pos));
        } else if c == 47 {
            // A lone slash: `strip` keeps the byte, the scanner emits `Slash`.
            assert(p2 == pos + 1);
            assert(strip(src, pos) == seq![src[pos]] + strip(src, pos + 1));
            assert(s.tok.unwrap().lexeme =~= seq![src[pos]]);
            assert(scan_all(src, pos, line).toks == seq![s.tok.unwrap()] + rest.toks);
            assert(concat_lexemes(seq![s.tok.unwrap()] + rest.toks) == s.tok.unwrap().lexeme
                + concat_lexemes(rest.toks)) by {
                assert((seq![s.tok.unwrap()] + rest.toks).skip(1) =~= rest.toks);
            }
            assert(concat_lexemes(scan_all(src, pos, line).toks) =~= strip(src, pos));
        } else {
            // A token whose bytes are all plain: punctuation, an operator, a
            // number or an identifier; or an unrecognised byte (excluded by
            // the no-diagnostics premise).
            let end = if is_digit(c) {
                let e1 = digits_end(src, pos + 1);
                lemma_digits_end_bounds(src, pos + 1);
                if e1 + 1 < src.len() && src[e1] == 46 && is_digit(src[e1 + 1]) {
                    lemma_digits_end_bounds(src, e1 + 1);
                    digits_end(src, e1 + 1)
                } else {
                    e1
                }
            } else if is_alpha(c) {
                lemma_ident_end_bounds(src, pos + 1);
                ident_end(src, pos + 1)
            } else {
                p2
            };
            assert(end == p2);
            assert forall|k: int| pos <= k < p2 implies is_plain(src[k]) by {
                if is_digit(c) {
                    lemma_digits_end_bounds(src, pos + 1);
                    let e1 = digits_end(src, pos + 1);
                    if e1 + 1 < src.len() && src[e1] == 46 && is_digit(src[e1 + 1]) {
                        lemma_digits_end_bounds(src, e1 + 1);
                        let e2 = digits_end(src, e1 + 1);
                        assert(p2 == e2);
                        if k == pos {
                            assert(is_digit(src[k]));
                        } else if pos + 1 <= k && k < e1 {
                            assert(is_digit(src[k]));
                        } else if k == e1 {
                            assert(src[k] == 46);
                        } else {
                            assert(e1 + 1 <= k && k < e2);
                            assert(is_digit(src[k]));
                        }
                    } else {
                        assert(p2 == e1);
                        if k != pos {
                            assert(pos + 1 <= k && k < e1);
                            assert(is_digit(src[k]));
                        }
                    }
                } else if is_alpha(c) {
                    lemma_ident_end_bounds(src, pos + 1);
                    if k != pos {
                        assert(pos + 1 <= k && k < ident_end(src, pos + 1));
                        assert(is_alnum(src[k]));
                    }
                } else {
                    assert(p2 == pos + 1 || p2 == pos + 2);
                    if k == pos + 1 {
                        assert(src[k] == 61);
                    }
                }
            }
            lemma_strip_run(src, pos, p2);
            assert(s.tok matches Option::Some(t) && t.lexeme == src.subrange(pos, p2));
            assert(scan_all(src, pos, line).toks == seq![s.tok.unwrap()] + rest.toks);
            assert(concat_lexemes(seq![s.tok.unwrap()] + rest.toks) == s.tok.unwrap().lexeme
                + concat_lexemes(rest.toks)) by {
                assert((seq![s.tok.unwrap()] + rest.toks).skip(1) =~= rest.toks);
            }
            assert(concat_lexemes(scan_all(src, pos, line).toks) =~= strip(src, pos));
        }
    }
}

/// The scanner: a cursor over the source bytes, the tokens and diagnostics
/// collected so far, and the current line.
pub struct Scanner {
    pub current: usize,
    pub start: usize,
    pub tokens: Vec<Token>,
    pub source: Vec<u8>,
    pub line: usize,
    pub errors: Vec<ScanError>,
}

/// The keyword table: the tag of an identifier lexeme.
fn keyword_of(lex: &Vec<u8>) -> (t: TokenType)
    ensures
        t == keyword_type(lex@),
{
    let n = lex.len();
    if n == 3 && lex[0] == 97 && lex[1] == 110 && lex[2] == 100 {
        proof {
            assert(lex@ =~= seq![97u8, 110u8, 100u8]);
        }
        TokenType::And
    } else if n == 5 && lex[0] == 99 && lex[1] == 108 && lex[2] == 97 && lex[3] == 115 && lex[4]
        == 115 {
        proof {
            assert(lex@ =~= seq![99u8, 108u8, 97u8, 115u8, 115u8]);
        }
        TokenType::Class
    } else if n == 4 && lex[0] == 101 && lex[1] == 108 && lex[2] == 115 && lex[3] == 101 {
        proof {
            assert(lex@ =~= seq![101u8, 108u8, 115u8, 101u8]);
        }
        TokenType::Else
    } else if n == 5 && lex[0] == 102 && lex[1] == 97 && lex[2] == 108 && lex[3] == 115 && lex[4]
        == 101 {
        proof {
            assert(lex@ =~= seq![102u8, 97u8, 108u8, 115u8, 101u8]);
        }
        TokenType::False
    } else if n == 3 && lex[0] == 102 && lex[1] == 111 && lex[2] == 114 {
        proof {
            assert(lex@ =~= seq![102u8, 111u8, 114u8]);
        }
        TokenType::For
    } else if n == 3 && lex[0] == 102 && lex[1] == 117 && lex[2] == 110 {
        proof {
            assert(lex@ =~= seq![102u8, 117u8, 110u8]);
        }
        TokenType::Fun
    } else if n == 2 && lex[0] == 105 && lex[1] == 102 {
        proof {
            assert(lex@ =~= seq![105u8, 102u8]);
        }
        TokenType::If
    } else if n == 3 && lex[0] == 110 && lex[1] == 105 && lex[2] == 108 {
        proof {
            assert(lex@ =~= seq![110u8, 105u8, 108u8]);
        }
        TokenType::Nil
    } else if n == 2 && lex[0] == 111 && lex[1] == 114 {
        proof {
            assert(lex@ =~= seq![111u8, 114u8]);
        }
        TokenType::Or
    } else if n == 5 && lex[0] == 112 && lex[1] == 114 && lex[2] == 105 && lex[3] == 110 && lex[4]
        == 116 {
        proof {
            assert(lex@ =~= seq![112u8, 114u8, 105u8, 110u8, 116u8]);
        }
        TokenType::Print
    } else if n == 6 && lex[0] == 114 && lex[1] == 101 && lex[2] == 116 && lex[3] == 117 && lex[4]
        == 114 && lex[5] == 110 {
        proof {
            assert(lex@ =~= seq![114u8, 101u8, 116u8, 117u8, 114u8, 110u8]);
        }
        TokenType::Return
    } else if n == 5 && lex[0] == 115 && lex[1] == 117 && lex[2] == 112 && lex[3] == 101 && lex[4]
        == 114 {
        proof {
            assert(lex@ =~= seq![115u8, 117u8, 112u8, 101u8, 114u8]);
        }
        TokenType::Super
    } else if n == 4 && lex[0] == 116 && lex[1] == 104 && lex[2] == 105 && lex[3] == 115 {
        proof {
            assert(lex@ =~= seq![116u8, 104u8, 105u8, 115u8]);
        }
        TokenType::This
    } else if n == 4 && lex[0] == 116 && lex[1] == 114 && lex[2] == 117 && lex[3] == 101 {
        proof {
            assert(lex@ =~= seq![116u8, 114u8, 117u8, 101u8]);
        }
        TokenType::True
    } else if n == 3 && lex[0] == 118 && lex[1] == 97 && lex[2] == 114 {
        proof {
            assert(lex@ =~= seq![118u8, 97u8, 114u8]);
        }
        TokenType::Var
    } else if n == 5 && lex[0] == 119 && lex[1] == 104 && lex[2] == 105 && lex[3] == 108 && lex[4]
        == 101 {
        proof {
            assert(lex@ =~= seq![119u8, 104u8, 105u8, 108u8, 101u8]);
        }
        TokenType::While
    } else {
        TokenType::Identifier
    }
}

/// Scan a whole source text into its token vector, `EOF` sentinel included.
pub fn scan(input: Vec<u8>) -> (r: Vec<Token>)
    ensures
        toks_view(r@) == scan_all(input@, 0, 0).toks,
{
    let mut scanner = Scanner::new(input);
    scanner.scan();
    proof {
        assert(toks_view(scanner.tokens@) =~= scan_all(scanner.source@, 0, 0).toks);
    }
    scanner.tokens
}

/// Copy of `v[a .. b)`.
fn copy_range(v: &Vec<u8>, a: usize, b: usize) -> (out: Vec<u8>)
    requires
        a <= b <= v@.len(),
    ensures
        out@ == v@.subrange(a as int, b as int),
{
    let mut out: Vec<u8> = Vec::new();
    let mut i = a;
    while i < b
        invariant
            a <= i <= b <= v@.len(),
            out@ == v@.subrange(a as int, i as int),
        decreases b - i,
    {
        out.push(v[i]);
        i = i + 1;
        proof {
            assert(v@.subrange(a as int, i as int) =~= v@.subrange(a as int, i - 1) + seq![
                v@[i - 1],
            ]);
        }
    }
    out
}

impl Scanner {
    /// The cursor is inside the source and the line counter never outruns it.
    pub open spec fn wf(self) -> bool {
        &&& self.current <= self.source@.len()
        &&& self.line <= self.current
    }

    pub fn new(source: Vec<u8>) -> (s: Scanner)
        ensures
            s.wf(),
            s.source == source,
            s.current == 0,
            s.line == 0,
            s.tokens@ == Seq::<Token>::empty(),
            s.errors@ == Seq::<ScanError>::empty(),
    {
        Scanner {
            current: 0,
            start: 0,
            tokens: Vec::new(),
            line: 0,
            source,
            errors: Vec::new(),
        }
    }

    /// Scan the rest of the source and append the `EOF` sentinel.
    pub fn scan(&mut self)
        requires
            old(self).wf(),
        ensures
            final(self).wf(),
            final(self).source == old(self).source,
            final(self).current == old(self).source@.len(),
            toks_view(final(self).tokens@) == toks_view(old(self).tokens@) + scan_all(
                old(self).source@,
                old(self).current as int,
                old(self).line as int,
            ).toks,
            errs_view(final(self).errors@) == errs_view(old(self).errors@) + scan_all(
                old(self).source@,
                old(self).current as int,
                old(self).line as int,
            ).errs,
    {
        let ghost src = self.source@;
        let ghost c0 = self.current as int;
        let ghost l0 = self.line as int;
        while self.current < self.source.len()
            invariant
                self.wf(),
                self.source == old(self).source,
                src == self.source@,
                0 <= c0 <= src.len(),
                toks_view(old(self).tokens@) + scan_all(src, c0, l0).toks == toks_view(
                    self.tokens@,
                ) + scan_all(src, self.current as int, self.line as int).toks,
                errs_view(old(self).errors@) + scan_all(src, c0, l0).errs == errs_view(
                    self.errors@,
                ) + scan_all(src, self.current as int, self.line as int).errs,
            decreases self.source@.len() - self.current,
        {
            let ghost pos = self.current as int;
            let ghost line = self.line as int;
            let ghost toks_pre = self.tokens@;
            let ghost errs_pre = self.errors@;
            self.scan_next();
            proof {
                lemma_scan_step_bounds(src, pos, line);
                lemma_scan_all_step(src, pos, line);
                assert(toks_view(old(self).tokens@) + scan_all(src, c0, l0).toks =~= toks_view(
                    self.tokens@,
                ) + scan_all(src, self.current as int, self.line as int).toks);
                assert(errs_view(old(self).errors@) + scan_all(src, c0, l0).errs =~= errs_view(
                    self.errors@,
                ) + scan_all(src, self.current as int, self.line as int).errs);
            }
        }
        let eof = Token {
            token_type: TokenType::EOF,
            lexeme: Vec::new(),
            line: self.line,
            literal: Option::None,
            column: self.source.len(),
        };
        self.tokens.push(eof);
        proof {
            assert(toks_view(self.tokens@) =~= toks_view(old(self).tokens@) + scan_all(
                src,
                c0,
                l0,
            ).toks);
            assert(errs_view(self.errors@) =~= errs_view(old(self).errors@) + scan_all(
                src,
                c0,
                l0,
            ).errs);
        }
    }

    /// Append the token whose lexeme is `source[start .. end)`.
    fn add_token_span(&mut self, token: TokenType, start: usize, end: usize, literal: Option<
        Literal,
    >)
        requires
            start <= end <= old(self).source@.len(),
            old(self).line <= end,
        ensures
            final(self).source == old(self).source,
            final(self).errors == old(self).errors,
            final(self).line == old(self).line,
            final(self).current == end,
            final(self).start == start,
            final(self).wf(),
            toks_view(final(self).tokens@) =~= toks_view(old(self).tokens@) + seq![
                TokenS {
                    token_type: token,
                    lexeme: old(self).source@.subrange(start as int, end as int),
                    line: old(self).line as int,
                    literal: match literal {
                        Option::None => Option::None,
                        Option::Some(Literal::String(s)) => Option::Some(LitS::Str(s@)),
                        Option::Some(Literal::Number(x)) => Option::Some(LitS::Num(x.frac())),
                    },
                    column: start as int,
                },
            ],
    {
        let lexeme = copy_range(&self.source, start, end);
        let tok = Token { token_type: token, lexeme, line: self.line, literal, column: start };
        self.tokens.push(tok);
        self.start = start;
        self.current = end;
        proof {
            assert(toks_view(self.tokens@) =~= toks_view(old(self).tokens@) + seq![
                token_view(self.tokens@.last()),
            ]);
        }
    }

    /// Scan one token, diagnostic, or skipped span starting at the cursor.
    fn scan_next(&mut self)
        requires
            old(self).wf(),
            old(self).current < old(self).source@.len(),
        ensures
            final(self).source == old(self).source,
            final(self).wf(),
            final(self).current as int == scan_step(
                old(self).source@,
                old(self).current as int,
                old(self).line as int,
            ).pos2,
            final(self).line as int == scan_step(
                old(self).source@,
                old(self).current as int,
                old(self).line as int,
            ).line2,
            toks_view(final(self).tokens@) == toks_view(old(self).tokens@) + opt_tok(
                scan_step(old(self).source@, old(self).current as int, old(self).line as int).tok,
            ),
            errs_view(final(self).errors@) == errs_view(old(self).errors@) + opt_err(
                scan_step(old(self).source@, old(self).current as int, old(self).line as int).err,
            ),
    {
        let ghost src = self.source@;
        let ghost line0 = self.line as int;
        let ghost step = scan_step(src, self.current as int, line0);
        proof {
            lemma_scan_step_bounds(src, self.current as int, line0);
        }
        let n = self.source.len();
        let pos = self.current;
        let c = self.source[pos];
        if c == 59 {
            self.add_token_span(TokenType::Semicolon, pos, pos + 1, Option::None);
        } else if c == 123 {
            self.add_token_span(TokenType::LeftBrace, pos, pos + 1, Option::None);
        } else if c == 125 {
            self.add_token_span(TokenType::RightBrace, pos, pos + 1, Option::None);
        } else if c == 40 {
            self.add_token_span(TokenType::LeftParen, pos, pos + 1, Option::None);
        } else if c == 41 {
            self.add_token_span(TokenType::RightParen, pos, pos + 1, Option::None);
        } else if c == 44 {
            self.add_token_span(TokenType::Comma, pos, pos + 1, Option::None);
        } else if c == 46 {
            self.add_token_span(TokenType::Dot, pos, pos + 1, Option::None);
        } else if c == 45 {
            self.add_token_span(TokenType::Minus, pos, pos + 1, Option::None);
        } else if c == 43 {
            self.add_token_span(TokenType::Plus, pos, pos + 1, Option::None);
        } else if c == 42 {
            self.add_token_span(TokenType::Star, pos, pos + 1, Option::None);
        } else if c == 61 {
            self.add_double_token(pos, 61, TokenType::EqualEqual, TokenType::Equal);
        } else if c == 33 {
            self.add_double_token(pos, 61, TokenType::BangEqual, TokenType::Bang);
        } else if c == 62 {
            self.add_double_token(pos, 61, TokenType::GreaterEqual, TokenType::Greater);
        } else if c == 60 {
            self.add_double_token(pos, 61, TokenType::LessEqual, TokenType::Less);
        } else if c == 34 {
            self.add_string_literal(pos);
        } else if c == 47 {
            if pos + 1 < self.source.len() && self.source[pos + 1] == 47 {
                let mut i = pos + 2;
                while i < self.source.len() && self.source[i] != 10
                    invariant
                        pos + 2 <= i <= src.len(),
                        self == old(self),
                        src == self.source@,
                        comment_end(src, pos + 2) == comment_end(src, i as int),
                    decreases src.len() - i,
                {
                    i = i + 1;
                }
                self.start = pos;
                self.current = i;
            } else {
                self.add_token_span(TokenType::Slash, pos, pos + 1, Option::None);
            }
        } else if c == 10 {
            self.start = pos;
            self.current = pos + 1;
            self.line = self.line + 1;
        } else if c == 32 || c == 9 || c == 13 {
            self.start = pos;
            self.current = pos + 1;
        } else if 48 <= c && c <= 57 {
            self.add_number_literal(pos);
        } else if (65 <= c && c <= 90) || (97 <= c && c <= 122) || c == 95 {
            self.add_identifier(pos);
        } else {
            self.add_error_span(ScanErrorKind::UnrecognisedCharacter, pos, pos + 1);
        }
        proof {
            assert(toks_view(self.tokens@) =~= toks_view(old(self).tokens@) + opt_tok(step.tok));
            assert(errs_view(self.errors@) =~= errs_view(old(self).errors@) + opt_err(step.err));
        }
    }

    /// Scan `=` `!` `>` `<`: the two-character form when `next` follows.
    fn add_double_token(&mut self, pos: usize, next: u8, two: TokenType, one: TokenType)
        requires
            old(self).wf(),
            old(self).current == pos < old(self).source@.len(),
        ensures
            final(self).source == old(self).source,
            final(self).errors == old(self).errors,
            final(self).line == old(self).line,
            final(self).wf(),
            ({
                let end: int = if pos + 1 < old(self).source@.len() && old(self).source@[pos + 1]
                    == next {
                    pos + 2
                } else {
                    pos + 1
                };
                let t = if end == pos + 2 {
                    two
                } else {
                    one
                };
                &&& final(self).current == end
                &&& toks_view(final(self).tokens@) == toks_view(old(self).tokens@) + seq![
                    tok_step(old(self).source@, pos as int, old(self).line as int, end, t)
                        .tok.unwrap(),
                ]
            }),
    {
        let n = self.source.len();
        if pos + 1 < n && self.source[pos + 1] == next {
            self.add_token_span(two, pos, pos + 2, Option::None);
        } else {
            self.add_token_span(one, pos, pos + 1, Option::None);
        }
    }

    /// Scan a string literal whose opening quote stands at `pos`.
    fn add_string_literal(&mut self, pos: usize)
        requires
            old(self).wf(),
            old(self).current == pos < old(self).source@.len(),
            old(self).source@[pos as int] == 34,
        ensures
            final(self).source == old(self).source,
            final(self).wf(),
            ({
                let s = str_scan(old(self).source@, pos + 1, old(self).line as int);
                &&& final(self).current as int == s.end
                &&& final(self).line as int == s.line
                &&& if s.closed {
                    &&& final(self).errors == old(self).errors
                    &&& toks_view(final(self).tokens@) == toks_view(old(self).tokens@) + seq![
                        TokenS {
                            token_type: TokenType::String,
                            lexeme: old(self).source@.subrange(pos as int, s.end),
                            line: s.line,
                            literal: Option::Some(
                                LitS::Str(old(self).source@.subrange(pos + 1, s.end - 1)),
                            ),
                            column: pos as int,
                        },
                    ]
                } else {
                    &&& final(self).tokens == old(self).tokens
                    &&& errs_view(final(self).errors@) == errs_view(old(self).errors@) + seq![
                        ScanErrS {
                            kind: ScanErrorKind::UnterminatedString,
                            line: s.line,
                            column: pos as int,
                        },
                    ]
                }
            }),
    {
        let ghost src = self.source@;
        let ghost line0 = self.line as int;
        let n = self.source.len();
        proof {
            lemma_str_scan_bounds(src, pos + 1, line0);
        }
        let mut i = pos + 1;
        let mut ln = self.line;
        while i < self.source.len() && self.source[i] != 34
            invariant
                pos + 1 <= i <= src.len(),
                n == src.len(),
                self == old(self),
                src == self.source@,
                line0 <= ln,
                ln < i,
                ln - line0 <= i - (pos + 1),
                old(self).line <= old(self).current == pos,
                str_scan(src, pos + 1, line0) == str_scan(src, i as int, ln as int),
            decreases src.len() - i,
        {
            if self.source[i] == 10 {
                ln = ln + 1;
            }
            i = i + 1;
        }
        if i < self.source.len() {
            // Closing quote found at `i`.
            self.line = ln;
            let lit = copy_range(&self.source, pos + 1, i);
            self.add_token_span(
                TokenType::String,
                pos,
                i + 1,
                Option::Some(Literal::String(lit)),
            );
        } else {
            self.line = ln;
            self.add_error_span(ScanErrorKind::UnterminatedString, pos, i);
        }
    }

    /// Scan a number literal whose first digit stands at `pos`.
    fn add_number_literal(&mut self, pos: usize)
        requires
            old(self).wf(),
            old(self).current == pos < old(self).source@.len(),
            is_digit(old(self).source@[pos as int]),
        ensures
            final(self).source == old(self).source,
            final(self).line == old(self).line,
            final(self).wf(),
            final(self).current as int == number_step(
                old(self).source@,
                pos as int,
                old(self).line as int,
            ).pos2,
            toks_view(final(self).tokens@) == toks_view(old(self).tokens@) + opt_tok(
                number_step(old(self).source@, pos as int, old(self).line as int).tok,
            ),
            errs_view(final(self).errors@) == errs_view(old(self).errors@) + opt_err(
                number_step(old(self).source@, pos as int, old(self).line as int).err,
            ),
    {
        let ghost src = self.source@;
        let ghost line0 = self.line as int;
        let ghost step = number_step(src, pos as int, line0);
        let n = self.source.len();
        proof {
            lemma_digits_end_bounds(src, pos + 1);
        }
        let mut i = pos + 1;
        while i < self.source.len() && 48 <= self.source[i] && self.source[i] <= 57
            invariant
                pos + 1 <= i <= src.len(),
                n == src.len(),
                self == old(self),
                src == self.source@,
                digits_end(src, pos + 1) == digits_end(src, i as int),
            decreases src.len() - i,
        {
            i = i + 1;
        }
        let e1 = i;
        assert(e1 == digits_end(src, pos + 1));
        let has_frac = e1 < n && e1 + 1 < n && self.source[e1] == 46 && 48 <= self.source[e1 + 1]
            && self.source[e1 + 1] <= 57;
        let e2 = if has_frac {
            proof {
                lemma_digits_end_bounds(src, e1 + 1);
            }
            let mut j = e1 + 1;
            while j < self.source.len() && 48 <= self.source[j] && self.source[j] <= 57
                invariant
                    e1 + 1 <= j <= src.len(),
                    self == old(self),
                    src == self.source@,
                    digits_end(src, e1 + 1) == digits_end(src, j as int),
                decreases src.len() - j,
            {
                j = j + 1;
            }
            j
        } else {
            e1
        };
        // Accumulate the digits' value, saturating once it leaves bounds.
        let ghost fstart: int = e1 + 1;
        let mut acc: u64 = 0;
        let mut over = false;
        let mut k = pos;
        while k < e1
            invariant
                pos <= k <= e1 <= src.len(),
                self == old(self),
                src == self.source@,
                forall|m: int| pos <= m < e1 ==> is_digit(src[m]),
                !over ==> acc as int == digits_val(src, pos as int, k as int) && acc
                    <= MAX_MAG as u64,
                over ==> digits_val(src, pos as int, k as int) > MAX_MAG as int,
            decreases e1 - k,
        {
            let d = self.source[k] - 48;
            proof {
                lemma_digits_val_nonneg(src, pos as int, k as int);
            }
            if !over {
                let t: u128 = (acc as u128) * 10 + (d as u128);
                if t > MAX_MAG as u128 {
                    over = true;
                } else {
                    acc = t as u64;
                }
            }
            k = k + 1;
        }
        let ghost int_val = digits_val(src, pos as int, e1 as int);
        let mut den: u64 = 1;
        if has_frac {
            let ghost mantissa_of = |j: int| int_val * pow10(j - fstart) + digits_val(
                src,
                fstart,
                j,
            );
            let mut j = e1 + 1;
            proof {
                lemma_digits_end_bounds(src, fstart);
                lemma_digits_val_nonneg(src, pos as int, e1 as int);
            }
            while j < e2
                invariant
                    e1 + 1 <= j <= e2 <= src.len(),
                    fstart == e1 + 1,
                    self == old(self),
                    src == self.source@,
                    int_val == digits_val(src, pos as int, e1 as int),
                    int_val >= 0,
                    forall|m: int| fstart <= m < e2 ==> is_digit(src[m]),
                    1 <= den,
                    !over ==> acc as int == int_val * pow10(j - fstart) + digits_val(
                        src,
                        fstart,
                        j as int,
                    ) && acc <= MAX_MAG as u64,
                    over ==> int_val * pow10(j - fstart) + digits_val(src, fstart, j as int)
                        > MAX_MAG as int,
                    den as int == pow10(j - fstart) || (den as int > MAX_DEN as int && pow10(
                        j - fstart,
                    ) >= den as int),
                    den <= 10 * MAX_DEN as u64,
                decreases e2 - j,
            {
                let d = self.source[j] - 48;
                proof {
                    lemma_digits_val_nonneg(src, fstart, j as int);
                    lemma_pow10_pos(j - fstart);
                    assert(int_val * pow10(j + 1 - fstart) == (int_val * pow10(j - fstart)) * 10)
                        by (nonlinear_arith)
                        requires
                            pow10(j + 1 - fstart) == 10 * pow10(j - fstart),
                    ;
                    assert(int_val * pow10(j - fstart) >= 0) by (nonlinear_arith)
                        requires
                            int_val >= 0,
                            pow10(j - fstart) >= 1,
                    ;
                }
                if !over {
                    let t: u128 = (acc as u128) * 10 + (d as u128);
                    if t > MAX_MAG as u128 {
                        over = true;
                    } else {
                        acc = t as u64;
                    }
                }
                if den <= MAX_DEN {
                    den = den * 10;
                } else {
                    proof {
                        lemma_pow10_pos(j - fstart);
                    }
                }
                j = j + 1;
            }
        }
        // `acc`/`over` and `den` now reflect the whole literal.
        if over || den > MAX_DEN {
            self.add_error_span(ScanErrorKind::NumberTooLarge, pos, e2);
        } else {
            proof {
                crate::num::lemma_norm_fits(acc as int, den as int);
            }
            let v = match Num::make(acc as i64, den) {
                Option::Some(v) => v,
                Option::None => vstd::pervasive::unreached(),
            };
            self.add_token_span(TokenType::Number, pos, e2, Option::Some(Literal::Number(v)));
        }
    }

    /// Scan an identifier or keyword whose first byte stands at `pos`.
    fn add_identifier(&mut self, pos: usize)
        requires
            old(self).wf(),
            old(self).current == pos < old(self).source@.len(),
            is_alpha(old(self).source@[pos as int]),
        ensures
            final(self).source == old(self).source,
            final(self).errors == old(self).errors,
            final(self).line == old(self).line,
            final(self).wf(),
            ({
                let e = ident_end(old(self).source@, pos + 1);
                &&& final(self).current as int == e
                &&& toks_view(final(self).tokens@) == toks_view(old(self).tokens@) + seq![
                    tok_step(
                        old(self).source@,
                        pos as int,
                        old(self).line as int,
                        e,
                        keyword_type(old(self).source@.subrange(pos as int, e)),
                    ).tok.unwrap(),
                ]
            }),
    {
        let ghost src = self.source@;
        let n = self.source.len();
        proof {
            lemma_ident_end_bounds(src, pos + 1);
        }
        let mut i = pos + 1;
        while i < self.source.len() && ((65 <= self.source[i] && self.source[i] <= 90) || (97
            <= self.source[i] && self.source[i] <= 122) || self.source[i] == 95 || (48
            <= self.source[i] && self.source[i] <= 57))
            invariant
                pos + 1 <= i <= src.len(),
                self == old(self),
                src == self.source@,
                ident_end(src, pos + 1) == ident_end(src, i as int),
            decreases src.len() - i,
        {
            i = i + 1;
        }
        let lex = copy_range(&self.source, pos, i);
        let t = keyword_of(&lex);
        self.add_token_span(t, pos, i, Option::None);
    }

    /// Record a diagnostic at column `start` and move the cursor to `end`.
    fn add_error_span(&mut self, kind: ScanErrorKind, start: usize, end: usize)
        requires
            start <= end <= old(self).source@.len(),
            old(self).line <= end,
        ensures
            final(self).source == old(self).source,
            final(self).tokens == old(self).tokens,
            final(self).line == old(self).line,
            final(self).current == end,
            final(self).start == start,
            final(self).wf(),
            errs_view(final(self).errors@) =~= errs_view(old(self).errors@) + seq![
                ScanErrS { kind, line: old(self).line as int, column: start as int },
            ],
    {
        self.errors.push(ScanError { kind, line: self.line, column: start });
        self.start = start;
        self.current = end;
        proof {
            assert(errs_view(self.errors@) =~= errs_view(old(self).errors@) + seq![
                err_view(self.errors@.last()),
            ]);
        }
    }
}

} // verus!
