use vstd::prelude::*;

verus! {

/// The lexical categories that the scanner distinguishes.
#[derive(Clone, Copy, Debug, PartialEq, Eq, Structural)]
pub enum TokenType {
    // Single-character punctuation.
    LeftParen,
    RightParen,
    LeftBrace,
    RightBrace,
    Comma,
    Dot,
    Minus,
    Plus,
    Semicolon,
    Slash,
    Star,
    // One- or two-character operators.
    Bang,
    BangEqual,
    Equal,
    EqualEqual,
    Greater,
    GreaterEqual,
    Less,
    LessEqual,
    // Literals.
    Identifier,
    String,
    Number,
    // Reserved words.
    And,
    Class,
    Else,
    False,
    Fun,
    For,
    If,
    Nil,
    Or,
    Print,
    Return,
    Super,
    This,
    True,
    Var,
    While,
    Comment,
    Eof,
}

impl TokenType {
    /// Punctuation and operators: the kinds whose lexeme is fixed.
    pub open spec fn is_operator(self) -> bool {
        match self {
            TokenType::LeftParen | TokenType::RightParen | TokenType::LeftBrace
            | TokenType::RightBrace | TokenType::Comma | TokenType::Dot | TokenType::Minus
            | TokenType::Plus | TokenType::Semicolon | TokenType::Slash | TokenType::Star
            | TokenType::Bang | TokenType::BangEqual | TokenType::Equal | TokenType::EqualEqual
            | TokenType::Greater | TokenType::GreaterEqual | TokenType::Less
            | TokenType::LessEqual => true,
            _ => false,
        }
    }

    /// The kinds of the reserved words.
    pub open spec fn is_reserved(self) -> bool {
        match self {
            TokenType::And | TokenType::Class | TokenType::Else | TokenType::False
            | TokenType::Fun | TokenType::For | TokenType::If | TokenType::Nil | TokenType::Or
            | TokenType::Print | TokenType::Return | TokenType::Super | TokenType::This
            | TokenType::True | TokenType::Var | TokenType::While => true,
            _ => false,
        }
    }

    /// The fixed lexeme of a punctuation or operator kind.
    pub open spec fn fixed_lexeme(self) -> Seq<char> {
        match self {
            TokenType::LeftParen => seq!['('],
            TokenType::RightParen => seq![')'],
            TokenType::LeftBrace => seq!['{'],
            TokenType::RightBrace => seq!['}'],
            TokenType::Comma => seq![','],
            TokenType::Dot => seq!['.'],
            TokenType::Minus => seq!['-'],
            TokenType::Plus => seq!['+'],
            TokenType::Semicolon => seq![';'],
            TokenType::Slash => seq!['/'],
            TokenType::Star => seq!['*'],
            TokenType::Bang => seq!['!'],
            TokenType::BangEqual => seq!['!', '='],
            TokenType::Equal => seq!['='],
            TokenType::EqualEqual => seq!['=', '='],
            TokenType::Greater => seq!['>'],
            TokenType::GreaterEqual => seq!['>', '='],
            TokenType::Less => seq!['<'],
            TokenType::LessEqual => seq!['<', '='],
            _ => seq![],
        }
    }

    /// The fixed lexeme of a punctuation or operator kind; empty for the
    /// other kinds.
    pub fn lexeme(&self) -> (r: &'static str)
        ensures
            r@ == self.fixed_lexeme(),
    {
        match self {
            TokenType::LeftParen => {
                proof {
                    reveal_strlit("(");
                }
                "("
            }
            TokenType::RightParen => {
                proof {
                    reveal_strlit(")");
                }
                ")"
            }
            TokenType::LeftBrace => {
                proof {
                    reveal_strlit("{");
                }
                "{"
            }
            TokenType::RightBrace => {
                proof {
                    reveal_strlit("}");
                }
                "}"
            }
            TokenType::Comma => {
                proof {
                    reveal_strlit(",");
                }
                ","
            }
            TokenType::Dot => {
                proof {
                    reveal_strlit(".");
                }
                "."
            }
            TokenType::Minus => {
                proof {
                    reveal_strlit("-");
                }
                "-"
            }
            TokenType::Plus => {
                proof {
                    reveal_strlit("+");
                }
                "+"
            }
            TokenType::Semicolon => {
                proof {
                    reveal_strlit(";");
                }
                ";"
            }
            TokenType::Slash => {
                proof {
                    reveal_strlit("/");
                }
                "/"
            }
            TokenType::Star => {
                proof {
                    reveal_strlit("*");
                }
                "*"
            }
            TokenType::Bang => {
                proof {
                    reveal_strlit("!");
                }
                "!"
            }
            TokenType::BangEqual => {
                proof {
                    reveal_strlit("!=");
                }
                "!="
            }
            TokenType::Equal => {
                proof {
                    reveal_strlit("=");
                }
                "="
            }
            TokenType::EqualEqual => {
                proof {
                    reveal_strlit("==");
                }
                "=="
            }
            TokenType::Greater => {
                proof {
                    reveal_strlit(">");
                }
                ">"
            }
            TokenType::GreaterEqual => {
                proof {
                    reveal_strlit(">=");
                }
                ">="
            }
            TokenType::Less => {
                proof {
                    reveal_strlit("<");
                }
                "<"
            }
            TokenType::LessEqual => {
                proof {
                    reveal_strlit("<=");
                }
                "<="
            }
            _ => {
                proof {
                    reveal_strlit("");
                }
                ""
            },
        }
    }
}

} // verus!
