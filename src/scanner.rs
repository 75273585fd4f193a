use crate::lexicon::{
    alnum_end, char_at, count_newlines, digits_end, emit, eof_token, is_alnum_char,
    is_alpha_char, is_digit_char, keyword_type, lemma_append_opt, lemma_step_bounds, line_end,
    number_end, opt_seq, quote_end, report, scan_from, step, trim_text, unrecognized_message,
    unterminated_message,
};
use crate::laws::{lemma_scan_from_tokens, lemma_step_token};
use crate::literals::{LiteralType, LiteralView};
use crate::rox::Rox;
use crate::token::{token_views, Token, TokenView};
use crate::token_type::TokenType;
use vstd::prelude::*;

verus! {

/// The cursor state of one scan: the source, the tokens emitted so far, the
/// start of the lexeme under construction, the next unread character and the
/// current line.
#[derive(Debug)]
pub struct Scanner {
    source: String,
    chars: Vec<char>,
    tokens: Vec<Token>,
    start: usize,
    current: usize,
    line: usize,
}

impl Scanner {
    /// The source as characters.
    pub closed spec fn src(&self) -> Seq<char> {
        self.chars@
    }

    /// The next unread character.
    pub closed spec fn pos(&self) -> int {
        self.current as int
    }

    pub closed spec fn line_no(&self) -> nat {
        self.line as nat
    }

    /// The tokens emitted so far.
    pub closed spec fn emitted(&self) -> Seq<TokenView> {
        token_views(self.tokens@)
    }

    pub closed spec fn wf(&self) -> bool {
        &&& self.chars@ == self.source@
        &&& self.start <= self.current <= self.chars@.len()
        &&& 1 <= self.line <= self.current + 1
        &&& self.chars@.len() < usize::MAX
    }

    /// Fields that a step of the scan leaves alone.
    closed spec fn same_source(&self, other: &Scanner) -> bool {
        &&& self.source@ == other.source@
        &&& self.chars@ == other.chars@
        &&& self.start == other.start
    }

    /// A scanner at the start of `source`, on line 1, with no tokens.
    pub fn new(source: String) -> (r: Scanner)
        requires
            source@.len() < usize::MAX,
        ensures
            r.wf(),
            r.src() == source@,
            r.pos() == 0,
            r.line_no() == 1,
            r.emitted() == Seq::<TokenView>::empty(),
    {
        let mut s = Scanner {
            source: source,
            chars: Vec::new(),
            tokens: Vec::new(),
            start: 0,
            current: 0,
            line: 1,
        };
        s.chars = s.get_source_chars();
        assert(token_views(s.tokens@) =~= Seq::<TokenView>::empty());
        s
    }

    /// The tokens emitted so far.
    pub fn tokens(&self) -> (r: &Vec<Token>)
        ensures
            token_views(r@) == self.emitted(),
    {
        &self.tokens
    }

    /// Gives up the scanner for the tokens it emitted.
    pub fn into_tokens(self) -> (r: Vec<Token>)
        ensures
            token_views(r@) == self.emitted(),
    {
        self.tokens
    }

    fn is_at_end(&self) -> (r: bool)
        ensures
            r == (self.current >= self.chars@.len()),
    {
        self.current >= self.chars.len()
    }

    fn is_alpha(&self, c: char) -> (r: bool)
        ensures
            r == is_alpha_char(c),
    {
        (c >= 'a' && c <= 'z') || (c >= 'A' && c <= 'Z') || c == '_'
    }

    fn is_digit(&self, c: char) -> (r: bool)
        ensures
            r == is_digit_char(c),
    {
        c >= '0' && c <= '9'
    }

    fn is_alphanumeric(&self, c: char) -> (r: bool)
        ensures
            r == is_alnum_char(c),
    {
        self.is_alpha(c) || self.is_digit(c)
    }

    fn peek_next(&self) -> (r: char)
        requires
            self.wf(),
        ensures
            r == char_at(self.chars@, self.current + 1),
    {
        if self.current + 1 >= self.chars.len() {
            '\0'
        } else {
            self.get_source_char(self.current + 1)
        }
    }

    fn peek(&self) -> (r: char)
        requires
            self.wf(),
        ensures
            r == char_at(self.chars@, self.current as int),
    {
        if self.is_at_end() {
            '\0'
        } else {
            self.get_source_char(self.current)
        }
    }

    fn get_source_char(&self, index: usize) -> (r: char)
        requires
            index < self.chars@.len(),
        ensures
            r == self.chars@[index as int],
    {
        self.chars[index]
    }

    fn get_source_chars(&self) -> (r: Vec<char>)
        ensures
            r@ == self.source@,
    {
        let mut out: Vec<char> = Vec::new();
        for c in it: self.source.as_str().chars()
            invariant
                out@ == it.seq().take(it.index() as int),
        {
            out.push(c);
        }
        assert(out@ =~= self.source@);
        out
    }

    /// The text strictly between the quotes of the lexeme just read.
    fn trim_quotes(&self) -> (r: String)
        requires
            self.wf(),
            self.start + 1 <= self.current - 1,
        ensures
            r@ == self.chars@.subrange(self.start + 1, self.current - 1),
    {
        self.source.as_str().substring_char(self.start + 1, self.current - 1).to_owned()
    }

    fn advance(&mut self) -> (r: char)
        requires
            old(self).wf(),
            old(self).current < old(self).chars@.len(),
        ensures
            final(self).wf(),
            final(self).same_source(old(self)),
            final(self).tokens@ == old(self).tokens@,
            final(self).line == old(self).line,
            final(self).current == old(self).current + 1,
            r == old(self).chars@[old(self).current as int],
    {
        self.current = self.current + 1;
        self.get_source_char(self.current - 1)
    }

    fn _match(&mut self, c: char) -> (r: bool)
        requires
            old(self).wf(),
        ensures
            final(self).wf(),
            final(self).same_source(old(self)),
            final(self).tokens@ == old(self).tokens@,
            final(self).line == old(self).line,
            r == (old(self).current < old(self).chars@.len() && old(self).chars@[old(self).current as int] == c),
            final(self).current == old(self).current + if r {
                1int
            } else {
                0int
            },
    {
        if self.is_at_end() {
            return false;
        }
        if self.get_source_char(self.current) != c {
            return false;
        }
        self.current = self.current + 1;
        true
    }

    fn add_token(&mut self, _type: TokenType, literal: LiteralType)
        ensures
            final(self).same_source(old(self)),
            final(self).current == old(self).current,
            final(self).line == old(self).line,
            final(self).emitted() == old(self).emitted().push(
                emit(_type, literal@, old(self).line as nat),
            ),
    {
        let line = self.line;
        self.add_token_at(_type, literal, line);
    }

    /// Emits a token stamped with `line`, the line its lexeme started on.
    fn add_token_at(&mut self, _type: TokenType, literal: LiteralType, line: usize)
        ensures
            final(self).same_source(old(self)),
            final(self).current == old(self).current,
            final(self).line == old(self).line,
            final(self).emitted() == old(self).emitted().push(emit(_type, literal@, line as nat)),
    {
        self.tokens.push(Token { _type: _type, lexeme: None, literal: literal, line: line });
        assert(token_views(self.tokens@) =~= token_views(old(self).tokens@).push(
            emit(_type, literal@, line as nat),
        ));
    }

    /// Reads the rest of a numeral whose first digit was just read.
    fn number(&mut self)
        requires
            old(self).wf(),
            old(self).current == old(self).start + 1,
            is_digit_char(old(self).chars@[old(self).start as int]),
        ensures
            final(self).wf(),
            final(self).same_source(old(self)),
            final(self).line == old(self).line,
            final(self).current == number_end(old(self).chars@, old(self).current as int),
            final(self).emitted() == old(self).emitted().push(
                emit(
                    TokenType::Number,
                    LiteralView::Number(
                        old(self).chars@.subrange(old(self).start as int, final(self).current as int),
                    ),
                    old(self).line as nat,
                ),
            ),
    {
        let ghost src = self.chars@;
        let ghost p = self.current as int;
        while self.is_digit(self.peek())
            invariant
                src == old(self).chars@,
                self.wf(),
                self.same_source(old(self)),
                self.tokens@ == old(self).tokens@,
                self.line == old(self).line,
                p <= self.current,
                digits_end(src, self.current as int) == digits_end(src, p),
            decreases src.len() - self.current,
        {
            self.advance();
        }
        if self.peek() == '.' && self.is_digit(self.peek_next()) {
            let ghost e = self.current as int;
            self.advance();
            while self.is_digit(self.peek())
                invariant
                    src == old(self).chars@,
                    self.wf(),
                    self.same_source(old(self)),
                    self.tokens@ == old(self).tokens@,
                    self.line == old(self).line,
                    p <= self.current,
                    digits_end(src, self.current as int) == digits_end(src, e + 1),
                decreases src.len() - self.current,
            {
                self.advance();
            }
        }
        let n = self.source.as_str().substring_char(self.start, self.current).to_owned();
        self.add_token(TokenType::Number, LiteralType::Number(n));
    }

    /// Reads the rest of a word whose first letter was just read.
    fn identifier(&mut self, rox: &Rox)
        requires
            old(self).wf(),
            old(self).current == old(self).start + 1,
        ensures
            final(self).wf(),
            final(self).same_source(old(self)),
            final(self).line == old(self).line,
            final(self).current == alnum_end(old(self).chars@, old(self).current as int),
            final(self).emitted() == old(self).emitted().push(
                emit(
                    keyword_type(
                        rox.keyword_table(),
                        old(self).chars@.subrange(old(self).start as int, final(self).current as int),
                    ),
                    LiteralView::Custom(
                        old(self).chars@.subrange(old(self).start as int, final(self).current as int),
                    ),
                    old(self).line as nat,
                ),
            ),
    {
        let ghost src = self.chars@;
        let ghost p = self.current as int;
        while self.is_alphanumeric(self.peek())
            invariant
                src == old(self).chars@,
                self.wf(),
                self.same_source(old(self)),
                self.tokens@ == old(self).tokens@,
                self.line == old(self).line,
                p <= self.current,
                alnum_end(src, self.current as int) == alnum_end(src, p),
            decreases src.len() - self.current,
        {
            self.advance();
        }
        let id = self.source.as_str().substring_char(self.start, self.current).to_owned();
        let _type = rox.keyword_for(&id);
        self.add_token(_type, LiteralType::Custom(id));
    }

    /// Reads the rest of a string literal whose opening quote was just read.
    fn string(&mut self, rox: &mut Rox)
        requires
            old(self).wf(),
            old(self).current == old(self).start + 1,
            old(self).line <= old(self).current,
        ensures
            ({
                let src = old(self).chars@;
                let p = old(self).current as int;
                let q = quote_end(src, p);
                let l = (old(self).line + count_newlines(src.subrange(p, q))) as nat;
                &&& final(self).wf()
                &&& final(self).same_source(old(self))
                &&& final(self).line == l
                &&& final(rox).keywords@ == old(rox).keywords@
                &&& if q >= src.len() {
                    &&& final(self).current == q
                    &&& final(self).emitted() == old(self).emitted()
                    &&& final(rox).had_error
                    &&& final(rox).reports() == old(rox).reports().push(
                        report(l, unterminated_message()),
                    )
                } else {
                    &&& final(self).current == q + 1
                    &&& final(self).emitted() == old(self).emitted().push(
                        emit(
                            TokenType::String,
                            LiteralView::Custom(src.subrange(p, q)),
                            old(self).line as nat,
                        ),
                    )
                    &&& final(rox).had_error == old(rox).had_error
                    &&& final(rox).reports() == old(rox).reports()
                }
            }),
    {
        let ghost src = self.chars@;
        let ghost p = self.current as int;
        let start_line = self.line;
        assert(src.subrange(p, p) =~= Seq::<char>::empty());
        while self.peek() != '"' && !self.is_at_end()
            invariant
                src == old(self).chars@,
                p == old(self).current,
                self.wf(),
                self.same_source(old(self)),
                self.tokens@ == old(self).tokens@,
                p <= self.current,
                self.line <= self.current,
                self.line == old(self).line + count_newlines(src.subrange(p, self.current as int)),
                quote_end(src, self.current as int) == quote_end(src, p),
            decreases src.len() - self.current,
        {
            let ghost c0 = self.current as int;
            assert(src.subrange(p, c0 + 1).drop_last() =~= src.subrange(p, c0));
            if self.peek() == '\n' {
                self.line += 1;
            }
            self.advance();
        }
        if self.is_at_end() {
            Rox::error(self.line, "Unterminated string.".to_string(), rox);
        } else {
            self.advance();
            let content = self.trim_quotes();
            self.add_token_at(TokenType::String, LiteralType::Custom(content), start_line);
        }
    }

    /// Classifies the lexeme that starts at the cursor.
    fn scan_token(&mut self, rox: &mut Rox)
        requires
            old(self).wf(),
            old(self).start == old(self).current,
            old(self).current < old(self).chars@.len(),
            old(rox).wf(),
        ensures
            ({
                let s = step(
                    old(self).chars@,
                    old(self).current as int,
                    old(self).line as nat,
                    old(rox).keyword_table(),
                );
                &&& final(self).wf()
                &&& final(self).same_source(old(self))
                &&& final(self).current == s.next
                &&& s.token matches Some(t) ==> t.kind != TokenType::Eof
                &&& final(self).line == s.line
                &&& final(self).emitted() == old(self).emitted() + opt_seq(s.token)
                &&& final(rox).keywords@ == old(rox).keywords@
                &&& final(rox).reports() == old(rox).reports() + opt_seq(s.report)
                &&& final(rox).had_error == (old(rox).had_error || s.report is Some)
            }),
    {
        let ghost src = self.chars@;
        let ghost pos = self.current as int;
        proof {
            let s = step(src, pos, self.line as nat, rox.keyword_table());
            lemma_append_opt(rox.reports(), s.report);
            lemma_append_opt(self.emitted(), s.token);
            lemma_step_token(src, pos, self.line as nat, rox.keyword_table());
        }
        match self.advance() {
            '"' => self.string(rox),
            '(' => self.add_token(TokenType::LeftParen, LiteralType::Text(TokenType::LeftParen.lexeme())),
            ')' => self.add_token(TokenType::RightParen, LiteralType::Text(TokenType::RightParen.lexeme())),
            '{' => self.add_token(TokenType::LeftBrace, LiteralType::Text(TokenType::LeftBrace.lexeme())),
            '}' => self.add_token(TokenType::RightBrace, LiteralType::Text(TokenType::RightBrace.lexeme())),
            ',' => self.add_token(TokenType::Comma, LiteralType::Text(TokenType::Comma.lexeme())),
            '.' => self.add_token(TokenType::Dot, LiteralType::Text(TokenType::Dot.lexeme())),
            '-' => self.add_token(TokenType::Minus, LiteralType::Text(TokenType::Minus.lexeme())),
            '+' => self.add_token(TokenType::Plus, LiteralType::Text(TokenType::Plus.lexeme())),
            ';' => self.add_token(TokenType::Semicolon, LiteralType::Text(TokenType::Semicolon.lexeme())),
            '*' => self.add_token(TokenType::Star, LiteralType::Text(TokenType::Star.lexeme())),
            '!' => {
                if self._match('=') {
                    self.add_token(TokenType::BangEqual, LiteralType::Text(TokenType::BangEqual.lexeme()))
                } else {
                    self.add_token(TokenType::Bang, LiteralType::Text(TokenType::Bang.lexeme()))
                }
            }
            '=' => {
                if self._match('=') {
                    self.add_token(TokenType::EqualEqual, LiteralType::Text(TokenType::EqualEqual.lexeme()))
                } else {
                    self.add_token(TokenType::Equal, LiteralType::Text(TokenType::Equal.lexeme()))
                }
            }
            '<' => {
                if self._match('=') {
                    self.add_token(TokenType::LessEqual, LiteralType::Text(TokenType::LessEqual.lexeme()))
                } else {
                    self.add_token(TokenType::Less, LiteralType::Text(TokenType::Less.lexeme()))
                }
            }
            '>' => {
                if self._match('=') {
                    self.add_token(TokenType::GreaterEqual, LiteralType::Text(TokenType::GreaterEqual.lexeme()))
                } else {
                    self.add_token(TokenType::Greater, LiteralType::Text(TokenType::Greater.lexeme()))
                }
            }
            '/' => {
                if self._match('/') {
                    while self.peek() != '\n' && !self.is_at_end()
                        invariant
                            src == old(self).chars@,
                            self.wf(),
                            self.same_source(old(self)),
                            self.tokens@ == old(self).tokens@,
                            self.line == old(self).line,
                            pos + 2 <= self.current,
                            line_end(src, self.current as int) == line_end(src, pos + 2),
                        decreases src.len() - self.current,
                    {
                        self.advance();
                    }
                    let body = self.source.as_str().substring_char(self.start + 2, self.current);
                    self.add_token(TokenType::Comment, LiteralType::Custom(trim_text(body)));
                } else {
                    self.add_token(TokenType::Slash, LiteralType::Text(TokenType::Slash.lexeme()))
                }
            },
            '\n' => self.line += 1,
            ' ' | '\r' | '\t' => {},
            c => {
                if self.is_digit(c) {
                    self.number();
                } else if self.is_alpha(c) {
                    self.identifier(rox);
                } else {
                    let mut message = "Unrecognized character: ".to_string();
                    let glyph = self.source.as_str().substring_char(self.current - 1, self.current);
                    assert(glyph@ =~= seq![c]);
                    message.append(glyph);
                    assert(message@ == unrecognized_message(c));
                    Rox::error(self.line, message, rox);
                }
            },
        }
    }

    /// Scans from the cursor to the end of the source, then appends the
    /// end-of-input token. Malformed lexemes are reported to `rox` and
    /// skipped.
    pub fn scan_tokens(&mut self, rox: &mut Rox)
        requires
            old(self).wf(),
            old(rox).wf(),
        ensures
            ({
                let r = scan_from(
                    old(self).src(),
                    old(self).pos(),
                    old(self).line_no(),
                    old(rox).keyword_table(),
                );
                &&& final(self).wf()
                &&& final(self).src() == old(self).src()
                &&& final(self).pos() == final(self).src().len()
                &&& final(self).line_no() == r.line
                &&& final(self).emitted() == old(self).emitted() + r.tokens.push(eof_token(r.line))
                &&& forall|i: int| 0 <= i < r.tokens.len() ==> (#[trigger] r.tokens[i]).kind != TokenType::Eof
                &&& final(rox).keywords@ == old(rox).keywords@
                &&& final(rox).reports() == old(rox).reports() + r.reports
                &&& final(rox).had_error == (old(rox).had_error || r.reports.len() > 0)
            }),
    {
        let ghost src = self.chars@;
        let ghost kw = rox.keyword_table();
        let ghost whole = scan_from(src, self.current as int, self.line as nat, kw);
        proof {
            lemma_scan_from_tokens(src, self.current as int, self.line as nat, kw);
        }
        while !self.is_at_end()
            invariant
                src == old(self).chars@,
                kw == old(rox).keyword_table(),
                whole == scan_from(src, old(self).current as int, old(self).line as nat, kw),
                self.wf(),
                self.chars@ == src,
                rox.keywords@ == old(rox).keywords@,
                rox.wf(),
                ({
                    let rest = scan_from(src, self.current as int, self.line as nat, kw);
                    &&& old(self).emitted() + whole.tokens == self.emitted() + rest.tokens
                    &&& old(rox).reports() + whole.reports == rox.reports() + rest.reports
                    &&& whole.line == rest.line
                }),
                rox.had_error == (old(rox).had_error || rox.reports().len() > old(rox).reports().len()),
                rox.reports().len() >= old(rox).reports().len(),
            decreases src.len() - self.current,
        {
            let ghost before_tokens = self.emitted();
            let ghost before_reports = rox.reports();
            let ghost s = step(src, self.current as int, self.line as nat, kw);
            let ghost rest = scan_from(src, s.next, s.line, kw);
            proof {
                lemma_step_bounds(src, self.current as int, self.line as nat, kw);
            }
            self.start = self.current;
            self.scan_token(rox);
            assert(before_tokens + (opt_seq(s.token) + rest.tokens) =~= self.emitted() + rest.tokens);
            assert(before_reports + (opt_seq(s.report) + rest.reports) =~= rox.reports() + rest.reports);
        }
        let ghost done = scan_from(src, self.current as int, self.line as nat, kw);
        assert(self.emitted() + done.tokens =~= self.emitted());
        assert(rox.reports() + done.reports =~= rox.reports());
        self.add_token(TokenType::Eof, LiteralType::Eof);
        assert(self.emitted() =~= old(self).emitted() + whole.tokens.push(eof_token(whole.line)));
    }
}

} // verus!
