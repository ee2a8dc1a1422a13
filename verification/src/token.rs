//! The token model: the closed set of token kinds, classification predicates,
//! the precedence/associativity table, and the keyword/symbol lookup.

use vstd::prelude::*;

verus! {

/// A lexical token of the language. Immutable once produced by the tokenizer.
#[derive(Debug)]
pub enum Token {
    Print,
    Input,
    Let,
    Rem,
    If,
    Then,
    Goto,
    End,
    Screen,
    Clear,
    Line,
    To,
    Dot,
    Circle,
    Comment(String),
    Variable(String),
    Number(i32),
    Text(String),
    Plus,
    Minus,
    Divide,
    Multiply,
    Equals,
    NotEqual,
    LessThan,
    GreaterThan,
    LessThanEqual,
    GreaterThanEqual,
    Lparen,
    Rparen,
    Comma,
    Bang,
    UnaryMinus,
}

/// The mathematical image of a [`Token`]: string payloads are sequences of
/// characters. Contracts throughout the crate speak of this type.
pub enum TokenV {
    Print,
    Input,
    Let,
    Rem,
    If,
    Then,
    Goto,
    End,
    Screen,
    Clear,
    Line,
    To,
    Dot,
    Circle,
    Comment(Seq<char>),
    Variable(Seq<char>),
    Number(i32),
    Text(Seq<char>),
    Plus,
    Minus,
    Divide,
    Multiply,
    Equals,
    NotEqual,
    LessThan,
    GreaterThan,
    LessThanEqual,
    GreaterThanEqual,
    Lparen,
    Rparen,
    Comma,
    Bang,
    UnaryMinus,
}

impl View for Token {
    type V = TokenV;

    open spec fn view(&self) -> TokenV {
        match self {
            Token::Print => TokenV::Print,
            Token::Input => TokenV::Input,
            Token::Let => TokenV::Let,
            Token::Rem => TokenV::Rem,
            Token::If => TokenV::If,
            Token::Then => TokenV::Then,
            Token::Goto => TokenV::Goto,
            Token::End => TokenV::End,
            Token::Screen => TokenV::Screen,
            Token::Clear => TokenV::Clear,
            Token::Line => TokenV::Line,
            Token::To => TokenV::To,
            Token::Dot => TokenV::Dot,
            Token::Circle => TokenV::Circle,
            Token::Comment(s) => TokenV::Comment(s@),
            Token::Variable(s) => TokenV::Variable(s@),
            Token::Number(n) => TokenV::Number(*n),
            Token::Text(s) => TokenV::Text(s@),
            Token::Plus => TokenV::Plus,
            Token::Minus => TokenV::Minus,
            Token::Divide => TokenV::Divide,
            Token::Multiply => TokenV::Multiply,
            Token::Equals => TokenV::Equals,
            Token::NotEqual => TokenV::NotEqual,
            Token::LessThan => TokenV::LessThan,
            Token::GreaterThan => TokenV::GreaterThan,
            Token::LessThanEqual => TokenV::LessThanEqual,
            Token::GreaterThanEqual => TokenV::GreaterThanEqual,
            Token::Lparen => TokenV::Lparen,
            Token::Rparen => TokenV::Rparen,
            Token::Comma => TokenV::Comma,
            Token::Bang => TokenV::Bang,
            Token::UnaryMinus => TokenV::UnaryMinus,
        }
    }
}

impl Clone for Token {
    fn clone(&self) -> (r: Token)
        ensures
            r@ == self@,
    {
        match self {
            Token::Print => Token::Print,
            Token::Input => Token::Input,
            Token::Let => Token::Let,
            Token::Rem => Token::Rem,
            Token::If => Token::If,
            Token::Then => Token::Then,
            Token::Goto => Token::Goto,
            Token::End => Token::End,
            Token::Screen => Token::Screen,
            Token::Clear => Token::Clear,
            Token::Line => Token::Line,
            Token::To => Token::To,
            Token::Dot => Token::Dot,
            Token::Circle => Token::Circle,
            Token::Comment(s) => Token::Comment(s.clone()),
            Token::Variable(s) => Token::Variable(s.clone()),
            Token::Number(n) => Token::Number(*n),
            Token::Text(s) => Token::Text(s.clone()),
            Token::Plus => Token::Plus,
            Token::Minus => Token::Minus,
            Token::Divide => Token::Divide,
            Token::Multiply => Token::Multiply,
            Token::Equals => Token::Equals,
            Token::NotEqual => Token::NotEqual,
            Token::LessThan => Token::LessThan,
            Token::GreaterThan => Token::GreaterThan,
            Token::LessThanEqual => Token::LessThanEqual,
            Token::GreaterThanEqual => Token::GreaterThanEqual,
            Token::Lparen => Token::Lparen,
            Token::Rparen => Token::Rparen,
            Token::Comma => Token::Comma,
            Token::Bang => Token::Bang,
            Token::UnaryMinus => Token::UnaryMinus,
        }
    }
}

/// Operator associativity. Unary operators are right-associative; every other
/// operator is left-associative.
#[derive(Debug, Clone, Copy, PartialEq, Eq, Structural)]
pub enum Associativity {
    Left,
    Right,
}

impl TokenV {
    /// A value token: a variable reference or a literal.
    pub open spec fn is_value(self) -> bool {
        match self {
            TokenV::Variable(_) | TokenV::Number(_) | TokenV::Text(_) => true,
            _ => false,
        }
    }

    /// Any arithmetic, comparison or unary operator.
    pub open spec fn is_operator(self) -> bool {
        match self {
            TokenV::Equals
            | TokenV::NotEqual
            | TokenV::LessThan
            | TokenV::GreaterThan
            | TokenV::LessThanEqual
            | TokenV::GreaterThanEqual
            | TokenV::Plus
            | TokenV::Minus
            | TokenV::Divide
            | TokenV::Multiply
            | TokenV::Bang
            | TokenV::UnaryMinus => true,
            _ => false,
        }
    }

    pub open spec fn is_comparison_operator(self) -> bool {
        match self {
            TokenV::Equals
            | TokenV::NotEqual
            | TokenV::LessThan
            | TokenV::GreaterThan
            | TokenV::LessThanEqual
            | TokenV::GreaterThanEqual => true,
            _ => false,
        }
    }

    pub open spec fn is_unary_operator(self) -> bool {
        match self {
            TokenV::Bang | TokenV::UnaryMinus => true,
            _ => false,
        }
    }

    pub open spec fn is_binary_operator(self) -> bool {
        self.is_operator() && !self.is_unary_operator()
    }

    /// Precedence, high to low: unary operators; multiply/divide;
    /// add/subtract; comparison operators. Meaningful for operators only.
    pub open spec fn precedence(self) -> u8 {
        match self {
            TokenV::UnaryMinus | TokenV::Bang => 32,
            TokenV::Multiply | TokenV::Divide => 16,
            TokenV::Minus | TokenV::Plus => 8,
            _ => 4,
        }
    }

    /// Unary operators are right-associative; everything else left.
    pub open spec fn associativity(self) -> Associativity {
        match self {
            TokenV::UnaryMinus | TokenV::Bang => Associativity::Right,
            _ => Associativity::Left,
        }
    }
}

/// The keyword/symbol table: maps a literal source spelling to its token, or
/// nothing when the spelling is not a fixed word of the language.
pub open spec fn spec_to_token(s: Seq<char>) -> Option<TokenV> {
    if s == "PRINT"@ {
        Some(TokenV::Print)
    } else if s == "INPUT"@ {
        Some(TokenV::Input)
    } else if s == "LET"@ {
        Some(TokenV::Let)
    } else if s == "REM"@ {
        Some(TokenV::Rem)
    } else if s == "IF"@ {
        Some(TokenV::If)
    } else if s == "THEN"@ {
        Some(TokenV::Then)
    } else if s == "GOTO"@ {
        Some(TokenV::Goto)
    } else if s == "END"@ {
        Some(TokenV::End)
    } else if s == "SCREEN"@ {
        Some(TokenV::Screen)
    } else if s == "CLEAR"@ {
        Some(TokenV::Clear)
    } else if s == "LINE"@ {
        Some(TokenV::Line)
    } else if s == "TO"@ {
        Some(TokenV::To)
    } else if s == "DOT"@ {
        Some(TokenV::Dot)
    } else if s == "CIRCLE"@ {
        Some(TokenV::Circle)
    } else if s == "+"@ {
        Some(TokenV::Plus)
    } else if s == "-"@ {
        Some(TokenV::Minus)
    } else if s == "/"@ {
        Some(TokenV::Divide)
    } else if s == "*"@ {
        Some(TokenV::Multiply)
    } else if s == "="@ {
        Some(TokenV::Equals)
    } else if s == "<>"@ {
        Some(TokenV::NotEqual)
    } else if s == "<"@ {
        Some(TokenV::LessThan)
    } else if s == ">"@ {
        Some(TokenV::GreaterThan)
    } else if s == "<="@ {
        Some(TokenV::LessThanEqual)
    } else if s == ">="@ {
        Some(TokenV::GreaterThanEqual)
    } else if s == "("@ {
        Some(TokenV::Lparen)
    } else if s == ")"@ {
        Some(TokenV::Rparen)
    } else if s == ","@ {
        Some(TokenV::Comma)
    } else if s == "!"@ {
        Some(TokenV::Bang)
    } else {
        None
    }
}

/// The view of an optional token.
pub open spec fn option_token_view(r: Option<Token>) -> Option<TokenV> {
    match r {
        Some(t) => Some(t@),
        None => None,
    }
}

/// Character-by-character string equality; `String` equality through vstd
/// covers owned strings, this covers string slices.
pub fn str_eq(a: &str, b: &str) -> (r: bool)
    ensures
        r == (a@ == b@),
{
    let alen = a.unicode_len();
    let blen = b.unicode_len();
    if alen != blen {
        assert(a@ != b@) by {
            assert(a@.len() != b@.len());
        }
        return false;
    }
    let mut i: usize = 0;
    while i < alen
        invariant
            alen == a@.len(),
            alen == b@.len(),
            i <= alen,
            forall|j: int| 0 <= j < i ==> a@[j] == b@[j],
        decreases alen - i,
    {
        if a.get_char(i) != b.get_char(i) {
            return false;
        }
        i += 1;
    }
    proof {
        assert(a@ =~= b@);
    }
    true
}

impl Token {
    /// Looks a literal source spelling up in the keyword/symbol table.
    pub fn to_token(symbol: &str) -> (r: Option<Token>)
        ensures
            option_token_view(r) == spec_to_token(symbol@),
    {
        if str_eq(symbol, "PRINT") {
            Some(Token::Print)
        } else if str_eq(symbol, "INPUT") {
            Some(Token::Input)
        } else if str_eq(symbol, "LET") {
            Some(Token::Let)
        } else if str_eq(symbol, "REM") {
            Some(Token::Rem)
        } else if str_eq(symbol, "IF") {
            Some(Token::If)
        } else if str_eq(symbol, "THEN") {
            Some(Token::Then)
        } else if str_eq(symbol, "GOTO") {
            Some(Token::Goto)
        } else if str_eq(symbol, "END") {
            Some(Token::End)
        } else if str_eq(symbol, "SCREEN") {
            Some(Token::Screen)
        } else if str_eq(symbol, "CLEAR") {
            Some(Token::Clear)
        } else if str_eq(symbol, "LINE") {
            Some(Token::Line)
        } else if str_eq(symbol, "TO") {
            Some(Token::To)
        } else if str_eq(symbol, "DOT") {
            Some(Token::Dot)
        } else if str_eq(symbol, "CIRCLE") {
            Some(Token::Circle)
        } else if str_eq(symbol, "+") {
            Some(Token::Plus)
        } else if str_eq(symbol, "-") {
            Some(Token::Minus)
        } else if str_eq(symbol, "/") {
            Some(Token::Divide)
        } else if str_eq(symbol, "*") {
            Some(Token::Multiply)
        } else if str_eq(symbol, "=") {
            Some(Token::Equals)
        } else if str_eq(symbol, "<>") {
            Some(Token::NotEqual)
        } else if str_eq(symbol, "<") {
            Some(Token::LessThan)
        } else if str_eq(symbol, ">") {
            Some(Token::GreaterThan)
        } else if str_eq(symbol, "<=") {
            Some(Token::LessThanEqual)
        } else if str_eq(symbol, ">=") {
            Some(Token::GreaterThanEqual)
        } else if str_eq(symbol, "(") {
            Some(Token::Lparen)
        } else if str_eq(symbol, ")") {
            Some(Token::Rparen)
        } else if str_eq(symbol, ",") {
            Some(Token::Comma)
        } else if str_eq(symbol, "!") {
            Some(Token::Bang)
        } else {
            None
        }
    }

    pub fn is_operator(&self) -> (r: bool)
        ensures
            r == self@.is_operator(),
    {
        match self {
            Token::Equals
            | Token::NotEqual
            | Token::LessThan
            | Token::GreaterThan
            | Token::LessThanEqual
            | Token::GreaterThanEqual
            | Token::Plus
            | Token::Minus
            | Token::Divide
            | Token::Multiply
            | Token::Bang
            | Token::UnaryMinus => true,
            _ => false,
        }
    }

    pub fn is_comparison_operator(&self) -> (r: bool)
        ensures
            r == self@.is_comparison_operator(),
    {
        match self {
            Token::Equals
            | Token::NotEqual
            | Token::LessThan
            | Token::GreaterThan
            | Token::LessThanEqual
            | Token::GreaterThanEqual => true,
            _ => false,
        }
    }

    pub fn is_unary_operator(&self) -> (r: bool)
        ensures
            r == self@.is_unary_operator(),
    {
        match self {
            Token::Bang | Token::UnaryMinus => true,
            _ => false,
        }
    }

    pub fn is_binary_operator(&self) -> (r: bool)
        ensures
            r == self@.is_binary_operator(),
    {
        self.is_operator() && !self.is_unary_operator()
    }

    pub fn is_value(&self) -> (r: bool)
        ensures
            r == self@.is_value(),
    {
        match self {
            Token::Variable(_) | Token::Number(_) | Token::Text(_) => true,
            _ => false,
        }
    }

    /// The precedence table. Not-an-operator is reported as an error.
    pub fn operator_precedence(&self) -> (r: Result<u8, String>)
        ensures
            self@.is_operator() ==> (r matches Ok(p) && p == self@.precedence()),
            !self@.is_operator() ==> r is Err,
    {
        if !self.is_operator() {
            return Err("ERR: Not an operator!".to_owned());
        }
        match self {
            Token::UnaryMinus | Token::Bang => Ok(32),
            Token::Multiply | Token::Divide => Ok(16),
            Token::Minus | Token::Plus => Ok(8),
            _ => Ok(4),
        }
    }

    /// The associativity table; defined for every token, as every
    /// non-operator falls under the left-associative default.
    pub fn operator_associativity(&self) -> (r: Result<Associativity, String>)
        ensures
            r matches Ok(a) && a == self@.associativity(),
    {
        match self {
            Token::UnaryMinus | Token::Bang => Ok(Associativity::Right),
            _ => Ok(Associativity::Left),
        }
    }
}

} // verus!
