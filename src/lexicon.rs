//! The lexical grammar, stated over sequences of characters.
//!
//! `scan` below is the meaning of a complete scan: the tokens, the
//! diagnostics, the span of source that each token came from, and the line
//! that the scan ends on.
use crate::diagnostic::DiagnosticView;
use crate::literals::LiteralView;
use crate::token::TokenView;
use crate::token_type::TokenType;
use vstd::prelude::*;

verus! {

/// The characters with the Unicode property White_Space, which is what
/// `char::is_whitespace` and `str::trim` test.
pub open spec fn is_white_space(c: char) -> bool {
    ('\u{9}' <= c && c <= '\u{d}') || c == ' ' || c == '\u{85}' || c == '\u{a0}'
        || c == '\u{1680}' || ('\u{2000}' <= c && c <= '\u{200a}') || c == '\u{2028}'
        || c == '\u{2029}' || c == '\u{202f}' || c == '\u{205f}' || c == '\u{3000}'
}

/// The first character at or after `i` that is not white space, or the end.
pub open spec fn skip_white(s: Seq<char>, i: int) -> int
    decreases s.len() - i,
{
    if 0 <= i < s.len() && is_white_space(s[i]) {
        skip_white(s, i + 1)
    } else {
        i
    }
}

/// The end of `s.take(j)` once its trailing white space is dropped.
pub open spec fn drop_white(s: Seq<char>, j: int) -> int
    decreases j,
{
    if 0 < j <= s.len() && is_white_space(s[j - 1]) {
        drop_white(s, j - 1)
    } else {
        j
    }
}

/// `s` without its leading and trailing white space.
pub open spec fn trimmed(s: Seq<char>) -> Seq<char> {
    let a = skip_white(s, 0);
    if a >= s.len() {
        seq![]
    } else {
        s.subrange(a, drop_white(s, s.len() as int))
    }
}

/// Relies on `str::trim`: the text without its leading and trailing
/// white space.
#[verifier::external_body]
pub(crate) fn trim_text(s: &str) -> (r: String)
    ensures
        r@ == trimmed(s@),
{
    s.trim().to_string()
}

pub open spec fn is_alpha_char(c: char) -> bool {
    ('a' <= c && c <= 'z') || ('A' <= c && c <= 'Z') || c == '_'
}

pub open spec fn is_digit_char(c: char) -> bool {
    '0' <= c && c <= '9'
}

pub open spec fn is_alnum_char(c: char) -> bool {
    is_alpha_char(c) || is_digit_char(c)
}

/// The character at `i`, or NUL past either end.
pub open spec fn char_at(src: Seq<char>, i: int) -> char {
    if 0 <= i < src.len() {
        src[i]
    } else {
        '\0'
    }
}

pub open spec fn count_newlines(s: Seq<char>) -> nat
    decreases s.len(),
{
    if s.len() == 0 {
        0
    } else {
        count_newlines(s.drop_last()) + if s.last() == '\n' {
            1nat
        } else {
            0nat
        }
    }
}

/// End of the maximal run of digits from `i`.
pub open spec fn digits_end(src: Seq<char>, i: int) -> int
    decreases src.len() - i,
{
    if 0 <= i < src.len() && is_digit_char(src[i]) {
        digits_end(src, i + 1)
    } else {
        i
    }
}

/// End of the maximal run of letters, digits and underscores from `i`.
pub open spec fn alnum_end(src: Seq<char>, i: int) -> int
    decreases src.len() - i,
{
    if 0 <= i < src.len() && is_alnum_char(src[i]) {
        alnum_end(src, i + 1)
    } else {
        i
    }
}

/// The first newline at or after `i`, or the end of the source.
pub open spec fn line_end(src: Seq<char>, i: int) -> int
    decreases src.len() - i,
{
    if 0 <= i < src.len() && src[i] != '\n' {
        line_end(src, i + 1)
    } else {
        i
    }
}

/// The first double quote at or after `i`, or the end of the source.
pub open spec fn quote_end(src: Seq<char>, i: int) -> int
    decreases src.len() - i,
{
    if 0 <= i < src.len() && src[i] != '"' {
        quote_end(src, i + 1)
    } else {
        i
    }
}

/// End of a numeral whose first digit lies just before `i`: a run of digits,
/// then a dot and a second run only where a digit follows the dot.
pub open spec fn number_end(src: Seq<char>, i: int) -> int {
    let e = digits_end(src, i);
    if char_at(src, e) == '.' && is_digit_char(char_at(src, e + 1)) {
        digits_end(src, e + 1)
    } else {
        e
    }
}

/// The reserved words and their kinds.
pub open spec fn reserved_words() -> Seq<(Seq<char>, TokenType)> {
    seq![
        ("and"@, TokenType::And),
        ("or"@, TokenType::Or),
        ("class"@, TokenType::Class),
        ("if"@, TokenType::If),
        ("else"@, TokenType::Else),
        ("true"@, TokenType::True),
        ("false"@, TokenType::False),
        ("nil"@, TokenType::Nil),
        ("for"@, TokenType::For),
        ("fun"@, TokenType::Fun),
        ("print"@, TokenType::Print),
        ("return"@, TokenType::Return),
        ("super"@, TokenType::Super),
        ("this"@, TokenType::This),
        ("var"@, TokenType::Var),
        ("while"@, TokenType::While),
    ]
}

/// A keyword table whose entries all map to reserved-word kinds.
pub open spec fn reserved_table(kw: Seq<(Seq<char>, TokenType)>) -> bool {
    forall|i: int| 0 <= i < kw.len() ==> (#[trigger] kw[i]).1.is_reserved()
}

/// A keyword table in which no word has two entries.
pub open spec fn distinct_words(kw: Seq<(Seq<char>, TokenType)>) -> bool {
    forall|i: int, j: int| 0 <= i < j < kw.len() ==> (#[trigger] kw[i]).0 != (#[trigger] kw[j]).0
}

/// The language's own table maps each reserved word, once, to its kind.
pub proof fn lemma_reserved_words_valid()
    ensures
        reserved_table(reserved_words()),
        distinct_words(reserved_words()),
{
    reveal_strlit("and");
    reveal_strlit("or");
    reveal_strlit("class");
    reveal_strlit("if");
    reveal_strlit("else");
    reveal_strlit("true");
    reveal_strlit("false");
    reveal_strlit("nil");
    reveal_strlit("for");
    reveal_strlit("fun");
    reveal_strlit("print");
    reveal_strlit("return");
    reveal_strlit("super");
    reveal_strlit("this");
    reveal_strlit("var");
    reveal_strlit("while");
    let kw = reserved_words();
    assert forall|i: int, j: int| 0 <= i < j < kw.len() implies (#[trigger] kw[i]).0 != (
    #[trigger] kw[j]).0 by {
        assert(kw[i].0.len() != kw[j].0.len() || kw[i].0[0] != kw[j].0[0] || kw[i].0[1] != kw[j].0[1]
            || kw[i].0[2] != kw[j].0[2]);
    }
}

/// The kind of a word under a keyword table: the kind of its first entry
/// for that word, else `Identifier`.
pub open spec fn keyword_type(table: Seq<(Seq<char>, TokenType)>, word: Seq<char>) -> TokenType
    decreases table.len(),
{
    if table.len() == 0 {
        TokenType::Identifier
    } else if table[0].0 == word {
        table[0].1
    } else {
        keyword_type(table.drop_first(), word)
    }
}

pub open spec fn unterminated_message() -> Seq<char> {
    "Unterminated string."@
}

pub open spec fn unrecognized_message(c: char) -> Seq<char> {
    "Unrecognized character: "@ + seq![c]
}

pub open spec fn report(line: nat, message: Seq<char>) -> DiagnosticView {
    DiagnosticView { line, location: seq![], message }
}

pub open spec fn emit(kind: TokenType, literal: LiteralView, line: nat) -> TokenView {
    TokenView { kind, lexeme: None, literal, line }
}

pub open spec fn eof_token(line: nat) -> TokenView {
    emit(TokenType::Eof, LiteralView::Eof, line)
}

/// The outcome of classifying one lexeme: at most one token, at most one
/// diagnostic, where the next lexeme starts and the line it starts on.
pub struct Step {
    pub token: Option<TokenView>,
    pub report: Option<DiagnosticView>,
    pub next: int,
    pub line: nat,
}

pub open spec fn fixed(kind: TokenType, next: int, line: nat) -> Step {
    Step {
        token: Some(emit(kind, LiteralView::Text(kind.fixed_lexeme()), line)),
        report: None,
        next,
        line,
    }
}

pub open spec fn silent(next: int, line: nat) -> Step {
    Step { token: None, report: None, next, line }
}

/// A kind whose lexeme is the fixed one, or its two-character form where
/// `=` follows.
pub open spec fn one_or_two(src: Seq<char>, p: int, line: nat, one: TokenType, two: TokenType) -> Step {
    if char_at(src, p) == '=' {
        fixed(two, p + 1, line)
    } else {
        fixed(one, p, line)
    }
}

/// One step of the scan: the lexeme that starts at `pos`, on `line`.
pub open spec fn step(src: Seq<char>, pos: int, line: nat, kw: Seq<(Seq<char>, TokenType)>) -> Step {
    let c = src[pos];
    let p = pos + 1;
    if c == '"' {
        let q = quote_end(src, p);
        let l = line + count_newlines(src.subrange(p, q));
        if q >= src.len() {
            Step { token: None, report: Some(report(l, unterminated_message())), next: q, line: l }
        } else {
            Step {
                token: Some(emit(TokenType::String, LiteralView::Custom(src.subrange(p, q)), line)),
                report: None,
                next: q + 1,
                line: l,
            }
        }
    } else if c == '(' {
        fixed(TokenType::LeftParen, p, line)
    } else if c == ')' {
        fixed(TokenType::RightParen, p, line)
    } else if c == '{' {
        fixed(TokenType::LeftBrace, p, line)
    } else if c == '}' {
        fixed(TokenType::RightBrace, p, line)
    } else if c == ',' {
        fixed(TokenType::Comma, p, line)
    } else if c == '.' {
        fixed(TokenType::Dot, p, line)
    } else if c == '-' {
        fixed(TokenType::Minus, p, line)
    } else if c == '+' {
        fixed(TokenType::Plus, p, line)
    } else if c == ';' {
        fixed(TokenType::Semicolon, p, line)
    } else if c == '*' {
        fixed(TokenType::Star, p, line)
    } else if c == '!' {
        one_or_two(src, p, line, TokenType::Bang, TokenType::BangEqual)
    } else if c == '=' {
        one_or_two(src, p, line, TokenType::Equal, TokenType::EqualEqual)
    } else if c == '<' {
        one_or_two(src, p, line, TokenType::Less, TokenType::LessEqual)
    } else if c == '>' {
        one_or_two(src, p, line, TokenType::Greater, TokenType::GreaterEqual)
    } else if c == '/' {
        if char_at(src, p) == '/' {
            let e = line_end(src, p + 1);
            Step {
                token: Some(
                    emit(
                        TokenType::Comment,
                        LiteralView::Custom(trimmed(src.subrange(p + 1, e))),
                        line,
                    ),
                ),
                report: None,
                next: e,
                line,
            }
        } else {
            fixed(TokenType::Slash, p, line)
        }
    } else if c == '\n' {
        silent(p, line + 1)
    } else if c == ' ' || c == '\r' || c == '\t' {
        silent(p, line)
    } else if is_digit_char(c) {
        let e = number_end(src, p);
        Step {
            token: Some(emit(TokenType::Number, LiteralView::Number(src.subrange(pos, e)), line)),
            report: None,
            next: e,
            line,
        }
    } else if is_alpha_char(c) {
        let w = src.subrange(pos, alnum_end(src, p));
        Step {
            token: Some(emit(keyword_type(kw, w), LiteralView::Custom(w), line)),
            report: None,
            next: alnum_end(src, p),
            line,
        }
    } else {
        Step { token: None, report: Some(report(line, unrecognized_message(c))), next: p, line }
    }
}

pub open spec fn opt_seq<A>(o: Option<A>) -> Seq<A> {
    match o {
        Some(a) => seq![a],
        None => seq![],
    }
}

pub proof fn lemma_append_opt<A>(s: Seq<A>, o: Option<A>)
    ensures
        s + opt_seq(o) == match o {
            Some(a) => s.push(a),
            None => s,
        },
{
    assert(s + opt_seq(o) =~= match o {
        Some(a) => s.push(a),
        None => s,
    });
}

/// What scanning from `pos` on `line` to the end of the source yields.
pub struct Scan {
    pub tokens: Seq<TokenView>,
    pub reports: Seq<DiagnosticView>,
    /// For each token, the start and end of its lexeme in the source.
    pub spans: Seq<(int, int)>,
    pub line: nat,
}

pub open spec fn scan_from(src: Seq<char>, pos: int, line: nat, kw: Seq<(Seq<char>, TokenType)>) -> Scan
    decreases src.len() - pos,
{
    if pos < 0 || pos >= src.len() {
        Scan { tokens: seq![], reports: seq![], spans: seq![], line }
    } else {
        let s = step(src, pos, line, kw);
        proof {
            lemma_step_bounds(src, pos, line, kw);
        }
        let rest = scan_from(src, s.next, s.line, kw);
        Scan {
            tokens: opt_seq(s.token) + rest.tokens,
            reports: opt_seq(s.report) + rest.reports,
            spans: (if s.token is Some {
                seq![(pos, s.next)]
            } else {
                seq![]
            }) + rest.spans,
            line: rest.line,
        }
    }
}

/// A complete scan of `src`: what `scan_from` yields from its start on line
/// 1, followed by the end-of-input token.
pub open spec fn scan(src: Seq<char>, kw: Seq<(Seq<char>, TokenType)>) -> Scan {
    let r = scan_from(src, 0, 1, kw);
    Scan {
        tokens: r.tokens.push(eof_token(r.line)),
        reports: r.reports,
        spans: r.spans.push((src.len() as int, src.len() as int)),
        line: r.line,
    }
}

pub proof fn lemma_digits_end(src: Seq<char>, i: int)
    requires
        0 <= i <= src.len(),
    ensures
        i <= digits_end(src, i) <= src.len(),
    decreases src.len() - i,
{
    if i < src.len() && is_digit_char(src[i]) {
        lemma_digits_end(src, i + 1);
    }
}

pub proof fn lemma_alnum_end(src: Seq<char>, i: int)
    requires
        0 <= i <= src.len(),
    ensures
        i <= alnum_end(src, i) <= src.len(),
    decreases src.len() - i,
{
    if i < src.len() && is_alnum_char(src[i]) {
        lemma_alnum_end(src, i + 1);
    }
}

pub proof fn lemma_line_end(src: Seq<char>, i: int)
    requires
        0 <= i <= src.len(),
    ensures
        i <= line_end(src, i) <= src.len(),
    decreases src.len() - i,
{
    if i < src.len() && src[i] != '\n' {
        lemma_line_end(src, i + 1);
    }
}

pub proof fn lemma_quote_end(src: Seq<char>, i: int)
    requires
        0 <= i <= src.len(),
    ensures
        i <= quote_end(src, i) <= src.len(),
    decreases src.len() - i,
{
    if i < src.len() && src[i] != '"' {
        lemma_quote_end(src, i + 1);
    }
}

/// Every step consumes at least one character and stays within the source.
pub proof fn lemma_step_bounds(src: Seq<char>, pos: int, line: nat, kw: Seq<(Seq<char>, TokenType)>)
    ensures
        0 <= pos < src.len() ==> pos < step(src, pos, line, kw).next <= src.len(),
{
    if 0 <= pos < src.len() {
        let p = pos + 1;
        lemma_quote_end(src, p);
        lemma_digits_end(src, p);
        let e = digits_end(src, p);
        if char_at(src, e) == '.' && is_digit_char(char_at(src, e + 1)) {
            lemma_digits_end(src, e + 1);
        }
        lemma_alnum_end(src, p);
        if p < src.len() {
            lemma_line_end(src, p + 1);
        }
    }
}

} // verus!
