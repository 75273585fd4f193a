//! Laws of the scanner, stated over the meaning of a scan in `lexicon`.
use crate::lexicon::{
    alnum_end, count_newlines, digits_end, eof_token, emit, is_alnum_char, is_digit_char,
    keyword_type, lemma_digits_end, lemma_quote_end, lemma_step_bounds, line_end, opt_seq,
    quote_end, reserved_table, scan, scan_from, step,
};
use crate::literals::LiteralView;
use crate::token::TokenView;
use crate::token_type::TokenType;
use vstd::prelude::*;

verus! {

/// What holds of every token that a step emits: it is not the end of input,
/// and an operator carries its fixed lexeme as text.
pub open spec fn well_formed_token(t: TokenView) -> bool {
    &&& t.kind != TokenType::Eof
    &&& t.kind.is_operator() ==> t.literal == LiteralView::Text(t.kind.fixed_lexeme())
}

pub proof fn lemma_keyword_type_kind(kw: Seq<(Seq<char>, TokenType)>, w: Seq<char>)
    requires
        reserved_table(kw),
    ensures
        keyword_type(kw, w) == TokenType::Identifier || keyword_type(kw, w).is_reserved(),
    decreases kw.len(),
{
    if kw.len() > 0 && kw[0].0 != w {
        assert(reserved_table(kw.drop_first())) by {
            assert forall|i: int| 0 <= i < kw.drop_first().len() implies (
            #[trigger] kw.drop_first()[i]).1.is_reserved() by {
                assert(kw.drop_first()[i] == kw[i + 1]);
            }
        }
        lemma_keyword_type_kind(kw.drop_first(), w);
    }
}

pub proof fn lemma_step_token(src: Seq<char>, pos: int, line: nat, kw: Seq<(Seq<char>, TokenType)>)
    requires
        reserved_table(kw),
        0 <= pos < src.len(),
    ensures
        step(src, pos, line, kw).token matches Some(t) ==> well_formed_token(t),
{
    let p = pos + 1;
    lemma_keyword_type_kind(kw, src.subrange(pos, alnum_end(src, p)));
}

pub proof fn lemma_scan_from_tokens(src: Seq<char>, pos: int, line: nat, kw: Seq<(Seq<char>, TokenType)>)
    requires
        reserved_table(kw),
    ensures
        forall|i: int|
            0 <= i < scan_from(src, pos, line, kw).tokens.len() ==> well_formed_token(
                #[trigger] scan_from(src, pos, line, kw).tokens[i],
            ),
    decreases src.len() - pos,
{
    if 0 <= pos < src.len() {
        let s = step(src, pos, line, kw);
        lemma_step_bounds(src, pos, line, kw);
        lemma_step_token(src, pos, line, kw);
        lemma_scan_from_tokens(src, s.next, s.line, kw);
        let rest = scan_from(src, s.next, s.line, kw);
        let all = scan_from(src, pos, line, kw);
        assert(all.tokens == opt_seq(s.token) + rest.tokens);
        assert forall|i: int| 0 <= i < all.tokens.len() implies well_formed_token(
            #[trigger] all.tokens[i],
        ) by {
            if s.token is Some && i == 0 {
            } else {
                let k = i - opt_seq(s.token).len();
                assert(all.tokens[i] == rest.tokens[k]);
            }
        }
    }
}

/// A scan ends with the end-of-input token, and no other token of it is
/// one, under a table of reserved words.
pub proof fn lemma_scan_ends_with_eof(src: Seq<char>, kw: Seq<(Seq<char>, TokenType)>)
    requires
        reserved_table(kw),
    ensures
        scan(src, kw).tokens.len() >= 1,
        scan(src, kw).tokens.last().kind == TokenType::Eof,
        forall|i: int|
            0 <= i < scan(src, kw).tokens.len() - 1 ==> (#[trigger] scan(src, kw).tokens[i]).kind
                != TokenType::Eof,
{
    lemma_scan_from_tokens(src, 0, 1, kw);
    let r = scan_from(src, 0, 1, kw);
    assert forall|i: int| 0 <= i < scan(src, kw).tokens.len() - 1 implies (
    #[trigger] scan(src, kw).tokens[i]).kind != TokenType::Eof by {
        assert(scan(src, kw).tokens[i] == r.tokens[i]);
    }
}

/// A scan is a function of the source and the keyword table: equal inputs
/// give equal tokens and equal diagnostics, so an equal error flag.
pub proof fn lemma_scan_deterministic(
    a: Seq<char>,
    b: Seq<char>,
    ka: Seq<(Seq<char>, TokenType)>,
    kb: Seq<(Seq<char>, TokenType)>,
)
    requires
        a == b,
        ka == kb,
    ensures
        scan(a, ka).tokens == scan(b, kb).tokens,
        scan(a, ka).reports == scan(b, kb).reports,
        (scan(a, ka).reports.len() > 0) == (scan(b, kb).reports.len() > 0),
{
}

/// `!=`, `==`, `<=` and `>=` win over their one-character prefixes: where
/// `=` follows `!`, `=`, `<` or `>`, the step takes both characters.
pub proof fn lemma_longest_match(src: Seq<char>, pos: int, line: nat, kw: Seq<(Seq<char>, TokenType)>)
    requires
        0 <= pos,
        pos + 1 < src.len(),
        src[pos + 1] == '=',
        src[pos] == '!' || src[pos] == '=' || src[pos] == '<' || src[pos] == '>',
    ensures
        ({
            let two = if src[pos] == '!' {
                TokenType::BangEqual
            } else if src[pos] == '=' {
                TokenType::EqualEqual
            } else if src[pos] == '<' {
                TokenType::LessEqual
            } else {
                TokenType::GreaterEqual
            };
            &&& step(src, pos, line, kw).token == Some(
                emit(two, LiteralView::Text(two.fixed_lexeme()), line),
            )
            &&& step(src, pos, line, kw).next == pos + 2
            &&& two.fixed_lexeme() == seq![src[pos], '=']
        }),
{
}

/// Scanning the lexeme of an operator alone gives that operator, on line 1,
/// and then the end of input.
pub proof fn lemma_rescan_operator(k: TokenType, kw: Seq<(Seq<char>, TokenType)>)
    requires
        k.is_operator(),
    ensures
        scan(k.fixed_lexeme(), kw).tokens == seq![
            emit(k, LiteralView::Text(k.fixed_lexeme()), 1),
            eof_token(1),
        ],
        scan(k.fixed_lexeme(), kw).reports.len() == 0,
{
    let src = k.fixed_lexeme();
    let s = step(src, 0, 1, kw);
    assert(s.token == Some(emit(k, LiteralView::Text(src), 1)) && s.next == src.len() && s.line
        == 1);
    let rest = scan_from(src, s.next, s.line, kw);
    assert(rest.tokens.len() == 0 && rest.reports.len() == 0 && rest.line == 1);
    assert(scan(src, kw).tokens =~= seq![
        emit(k, LiteralView::Text(k.fixed_lexeme()), 1),
        eof_token(1),
    ]);
}

/// Every operator that a scan emits carries its lexeme, and that lexeme
/// scanned alone gives the same kind of token and nothing else.
pub proof fn lemma_operator_round_trip(src: Seq<char>, kw: Seq<(Seq<char>, TokenType)>, i: int)
    requires
        reserved_table(kw),
        0 <= i < scan(src, kw).tokens.len(),
        scan(src, kw).tokens[i].kind.is_operator(),
    ensures
        ({
            let t = scan(src, kw).tokens[i];
            &&& t.literal == LiteralView::Text(t.kind.fixed_lexeme())
            &&& scan(t.kind.fixed_lexeme(), kw).tokens == seq![
                emit(t.kind, LiteralView::Text(t.kind.fixed_lexeme()), 1),
                eof_token(1),
            ]
        }),
{
    lemma_scan_from_tokens(src, 0, 1, kw);
    let r = scan_from(src, 0, 1, kw);
    if i < r.tokens.len() {
        assert(scan(src, kw).tokens[i] == r.tokens[i]);
    }
    lemma_rescan_operator(scan(src, kw).tokens[i].kind, kw);
}

pub proof fn lemma_count_concat(a: Seq<char>, b: Seq<char>)
    ensures
        count_newlines(a + b) == count_newlines(a) + count_newlines(b),
    decreases b.len(),
{
    if b.len() == 0 {
        assert(a + b =~= a);
    } else {
        lemma_count_concat(a, b.drop_last());
        assert((a + b).drop_last() =~= a + b.drop_last());
    }
}

pub proof fn lemma_count_single(c: char)
    ensures
        count_newlines(seq![c]) == if c == '\n' {
            1nat
        } else {
            0nat
        },
{
    assert(seq![c].drop_last() =~= Seq::<char>::empty());
    assert(count_newlines(Seq::<char>::empty()) == 0);
}

pub proof fn lemma_count_none(s: Seq<char>)
    requires
        forall|j: int| 0 <= j < s.len() ==> s[j] != '\n',
    ensures
        count_newlines(s) == 0,
    decreases s.len(),
{
    if s.len() > 0 {
        lemma_count_none(s.drop_last());
    }
}

pub proof fn lemma_digits_run(src: Seq<char>, i: int)
    requires
        0 <= i <= src.len(),
    ensures
        forall|j: int| i <= j < digits_end(src, i) ==> is_digit_char(#[trigger] src[j]),
    decreases src.len() - i,
{
    if i < src.len() && is_digit_char(src[i]) {
        lemma_digits_run(src, i + 1);
    }
}

pub proof fn lemma_alnum_run(src: Seq<char>, i: int)
    requires
        0 <= i <= src.len(),
    ensures
        forall|j: int| i <= j < alnum_end(src, i) ==> is_alnum_char(#[trigger] src[j]),
    decreases src.len() - i,
{
    if i < src.len() && is_alnum_char(src[i]) {
        lemma_alnum_run(src, i + 1);
    }
}

pub proof fn lemma_quote_stop(src: Seq<char>, i: int)
    requires
        0 <= i <= src.len(),
    ensures
        quote_end(src, i) < src.len() ==> src[quote_end(src, i)] == '"',
    decreases src.len() - i,
{
    if i < src.len() && src[i] != '"' {
        lemma_quote_stop(src, i + 1);
    }
}

pub proof fn lemma_line_run(src: Seq<char>, i: int)
    requires
        0 <= i <= src.len(),
    ensures
        forall|j: int| i <= j < line_end(src, i) ==> #[trigger] src[j] != '\n',
    decreases src.len() - i,
{
    if i < src.len() && src[i] != '\n' {
        lemma_line_run(src, i + 1);
    }
}

/// A step that starts on the line `1 + newlines before pos` ends on the line
/// `1 + newlines before next`, and its token, if any, is on the line it
/// started on.
pub proof fn lemma_step_lines(src: Seq<char>, pos: int, line: nat, kw: Seq<(Seq<char>, TokenType)>)
    requires
        0 <= pos < src.len(),
        line == 1 + count_newlines(src.take(pos)),
    ensures
        step(src, pos, line, kw).line == 1 + count_newlines(src.take(step(src, pos, line, kw).next)),
        step(src, pos, line, kw).token matches Some(t) ==> t.line == line,
{
    let s = step(src, pos, line, kw);
    let c = src[pos];
    let p = pos + 1;
    lemma_step_bounds(src, pos, line, kw);
    assert(src.take(s.next) =~= src.take(pos) + src.subrange(pos, s.next));
    lemma_count_concat(src.take(pos), src.subrange(pos, s.next));
    if c == '"' {
        let q = quote_end(src, p);
        lemma_quote_end(src, p);
        let mid = src.subrange(p, q);
        let tail = src.subrange(q, s.next);
        assert(src.subrange(pos, s.next) =~= seq![c] + (mid + tail));
        lemma_count_concat(seq![c], mid + tail);
        lemma_count_concat(mid, tail);
        lemma_count_single(c);
        if q < src.len() {
            lemma_quote_stop(src, p);
            assert(tail =~= seq![src[q]]);
            lemma_count_single(src[q]);
        } else {
            assert(tail =~= Seq::<char>::empty());
        }
    } else if c == '\n' {
        assert(src.subrange(pos, s.next) =~= seq!['\n']);
        lemma_count_single('\n');
    } else {
        lemma_digits_end(src, p);
        lemma_digits_run(src, p);
        let e = digits_end(src, p);
        if e + 1 <= src.len() {
            lemma_digits_run(src, e + 1);
        }
        lemma_alnum_run(src, p);
        if p < src.len() {
            lemma_line_run(src, p + 1);
        }
        assert forall|j: int| 0 <= j < s.next - pos implies #[trigger] src.subrange(pos, s.next)[j]
            != '\n' by {
            assert(src.subrange(pos, s.next)[j] == src[pos + j]);
        }
        lemma_count_none(src.subrange(pos, s.next));
    }
}

pub proof fn lemma_scan_from_lines(src: Seq<char>, pos: int, line: nat, kw: Seq<(Seq<char>, TokenType)>)
    requires
        0 <= pos <= src.len(),
        line == 1 + count_newlines(src.take(pos)),
    ensures
        ({
            let r = scan_from(src, pos, line, kw);
            &&& r.tokens.len() == r.spans.len()
            &&& r.line == 1 + count_newlines(src)
            &&& forall|i: int|
                0 <= i < r.spans.len() ==> pos <= (#[trigger] r.spans[i]).0 < r.spans[i].1
                    <= src.len()
            &&& forall|i: int|
                0 <= i < r.tokens.len() ==> (#[trigger] r.tokens[i]).line == 1 + count_newlines(
                    src.take(r.spans[i].0),
                )
        }),
    decreases src.len() - pos,
{
    let r = scan_from(src, pos, line, kw);
    if pos == src.len() {
        assert(src.take(pos) =~= src);
    } else {
        let s = step(src, pos, line, kw);
        lemma_step_bounds(src, pos, line, kw);
        lemma_step_lines(src, pos, line, kw);
        lemma_scan_from_lines(src, s.next, s.line, kw);
        let rest = scan_from(src, s.next, s.line, kw);
        let n: int = if s.token is Some {
            1
        } else {
            0
        };
        assert forall|i: int| 0 <= i < r.spans.len() implies pos <= (#[trigger] r.spans[i]).0
            < r.spans[i].1 <= src.len() by {
            if i >= n {
                assert(r.spans[i] == rest.spans[i - n]);
            }
        }
        assert forall|i: int| 0 <= i < r.tokens.len() implies (#[trigger] r.tokens[i]).line == 1
            + count_newlines(src.take(r.spans[i].0)) by {
            if i >= n {
                assert(r.tokens[i] == rest.tokens[i - n]);
                assert(r.spans[i] == rest.spans[i - n]);
            }
        }
    }
}

/// The line of each token is 1 plus the number of newlines before the start
/// of its lexeme; the end-of-input token starts at the end of the source.
pub proof fn lemma_token_lines(src: Seq<char>, kw: Seq<(Seq<char>, TokenType)>, i: int)
    requires
        0 <= i < scan(src, kw).tokens.len(),
    ensures
        ({
            let (a, b) = scan(src, kw).spans[i];
            &&& 0 <= a <= b <= src.len()
            &&& scan(src, kw).tokens[i].line == 1 + count_newlines(src.take(a))
        }),
{
    assert(src.take(0) =~= Seq::<char>::empty());
    lemma_scan_from_lines(src, 0, 1, kw);
    let r = scan_from(src, 0, 1, kw);
    if i == r.tokens.len() {
        assert(src.take(src.len() as int) =~= src);
    }
}

} // verus!
