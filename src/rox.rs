use crate::diagnostic::{diagnostic_views, Diagnostic, DiagnosticView};
use crate::lexicon::{
    distinct_words, keyword_type, lemma_reserved_words_valid, report, reserved_table,
    reserved_words, scan,
};
use crate::scanner::Scanner;
use crate::token::{token_views, Token};
use crate::token_type::TokenType;
use vstd::prelude::*;

verus! {

/// The session: the keyword table that scans share, the sticky error flag,
/// and the diagnostics reported so far, in order.
#[derive(Debug)]
pub struct Rox {
    pub had_error: bool,
    pub keywords: Vec<(String, TokenType)>,
    pub diagnostics: Vec<Diagnostic>,
}

impl Rox {
    /// The keyword table as words and kinds.
    pub open spec fn keyword_table(&self) -> Seq<(Seq<char>, TokenType)> {
        self.keywords@.map_values(|e: (String, TokenType)| (e.0@, e.1))
    }

    /// The keyword table maps each of its words, once, to a reserved-word
    /// kind.
    pub open spec fn wf(&self) -> bool {
        &&& reserved_table(self.keyword_table())
        &&& distinct_words(self.keyword_table())
    }

    pub open spec fn reports(&self) -> Seq<DiagnosticView> {
        diagnostic_views(self.diagnostics@)
    }

    /// A session with the reserved words of the language and no diagnostics.
    pub fn new(had_error: bool) -> (r: Rox)
        ensures
            r.wf(),
            r.had_error == had_error,
            r.keyword_table() == reserved_words(),
            r.reports() == Seq::<DiagnosticView>::empty(),
    {
        let mut keywords: Vec<(String, TokenType)> = Vec::new();
        keywords.push(("and".to_string(), TokenType::And));
        keywords.push(("or".to_string(), TokenType::Or));
        keywords.push(("class".to_string(), TokenType::Class));
        keywords.push(("if".to_string(), TokenType::If));
        keywords.push(("else".to_string(), TokenType::Else));
        keywords.push(("true".to_string(), TokenType::True));
        keywords.push(("false".to_string(), TokenType::False));
        keywords.push(("nil".to_string(), TokenType::Nil));
        keywords.push(("for".to_string(), TokenType::For));
        keywords.push(("fun".to_string(), TokenType::Fun));
        keywords.push(("print".to_string(), TokenType::Print));
        keywords.push(("return".to_string(), TokenType::Return));
        keywords.push(("super".to_string(), TokenType::Super));
        keywords.push(("this".to_string(), TokenType::This));
        keywords.push(("var".to_string(), TokenType::Var));
        keywords.push(("while".to_string(), TokenType::While));
        let r = Rox { had_error: had_error, keywords: keywords, diagnostics: Vec::new() };
        assert(r.keyword_table() =~= reserved_words());
        proof {
            lemma_reserved_words_valid();
        }
        assert(r.reports() =~= Seq::<DiagnosticView>::empty());
        r
    }

    /// The kind of `word` under the keyword table.
    pub fn keyword_for(&self, word: &String) -> (r: TokenType)
        ensures
            r == keyword_type(self.keyword_table(), word@),
    {
        let ghost table = self.keyword_table();
        let mut i: usize = 0;
        assert(table.subrange(0, table.len() as int) =~= table);
        while i < self.keywords.len()
            invariant
                i <= self.keywords@.len(),
                table == self.keyword_table(),
                keyword_type(table, word@) == keyword_type(table.subrange(i as int, table.len() as int), word@),
            decreases self.keywords@.len() - i,
        {
            let ghost rest = table.subrange(i as int, table.len() as int);
            assert(rest.drop_first() =~= table.subrange(i + 1, table.len() as int));
            if self.keywords[i].0 == *word {
                return self.keywords[i].1;
            }
            i = i + 1;
        }
        assert(table.subrange(i as int, table.len() as int) =~= Seq::<(Seq<char>, TokenType)>::empty());
        TokenType::Identifier
    }

    /// Scans `source` under this session's keyword table. Malformed lexemes
    /// are reported to the session, which keeps its earlier reports; the
    /// error flag, once set, stays set.
    pub fn run(&mut self, source: &String) -> (r: Vec<Token>)
        requires
            old(self).wf(),
            source@.len() < usize::MAX,
        ensures
            final(self).wf(),
            ({
                let s = scan(source@, old(self).keyword_table());
                &&& token_views(r@) == s.tokens
                &&& final(self).keywords@ == old(self).keywords@
                &&& final(self).reports() == old(self).reports() + s.reports
                &&& final(self).had_error == (old(self).had_error || s.reports.len() > 0)
            }),
    {
        let mut scanner: Scanner = Scanner::new(source.clone());
        scanner.scan_tokens(self);
        scanner.into_tokens()
    }

    /// Reports `message` on `line` with no location; the error flag is set.
    pub fn error(line: usize, message: String, rox: &mut Rox)
        ensures
            final(rox).had_error,
            final(rox).keywords@ == old(rox).keywords@,
            final(rox).reports() == old(rox).reports().push(report(line as nat, message@)),
    {
        Rox::report(line, String::new(), message, rox);
    }

    fn report(line: usize, _where: String, message: String, rox: &mut Rox)
        ensures
            final(rox).had_error,
            final(rox).keywords@ == old(rox).keywords@,
            final(rox).reports() == old(rox).reports().push(
                DiagnosticView { line: line as nat, location: _where@, message: message@ },
            ),
    {
        rox.diagnostics.push(Diagnostic { line: line, location: _where, message: message });
        rox.had_error = true;
        assert(rox.reports() =~= old(rox).reports().push(
            DiagnosticView { line: line as nat, location: _where@, message: message@ },
        ));
    }
}

} // verus!
