//! Tokens: what the lexer hands out, and what a token stands for in contracts.
use vstd::prelude::*;
use vstd::string::StringExecFns;

verus! {

/// Where a lexeme starts: the column and the line of its first character, both
/// counted from 1.
#[derive(Debug, Clone, Copy, PartialEq, Eq, Structural)]
pub struct Location {
    pub column: usize,
    pub line: usize,
}

impl Location {
    /// The place at a column of a line.
    pub fn new(column: usize, line: usize) -> (r: Self)
        ensures
            r.column == column,
            r.line == line,
    {
        Self { column, line }
    }

    /// The column, counted from 1.
    pub fn column(&self) -> (r: usize)
        ensures
            r == self.column,
    {
        self.column
    }

    /// The line, counted from 1.
    pub fn line(&self) -> (r: usize)
        ensures
            r == self.line,
    {
        self.line
    }
}

/// The class of a token, without its place and payload.
#[derive(Debug, Clone, Copy, PartialEq, Eq, Structural)]
pub enum TokenKind {
    If,
    Else,
    Variable,
    For,
    Function,
    Container,
    Identifier,
    True,
    False,
    NumberLiteral,
    StringLiteral,
    Semicolon,
    Comma,
    OpenBracket,
    CloseBracket,
    OpenParentheses,
    CloseParentheses,
    OpenCurlyBrace,
    CloseCurlyBrace,
    Dot,
    Assignment,
    Equality,
    GreaterThan,
    GreaterEqualTo,
    LessThan,
    LessEqualTo,
    LogicalNot,
    LogicalNotEqualTo,
    LogicalOr,
    LogicalAnd,
    BitwiseOr,
    BitwiseAnd,
    BitwiseNot,
    SubtractEqual,
    AddEqual,
    MultiplyEqual,
    DivideEqual,
    Subtraction,
    Addition,
    Multiply,
    Divide,
}

impl TokenKind {
    /// Whether tokens of this kind carry a payload: names, numbers and strings do.
    pub open spec fn has_payload(self) -> bool {
        self == TokenKind::Identifier || self == TokenKind::NumberLiteral || self
            == TokenKind::StringLiteral
    }

    /// The fixed spelling of a keyword, a punctuation mark or an operator; empty
    /// for the kinds that carry a payload.
    pub open spec fn spelling(self) -> Seq<char> {
        match self {
            TokenKind::If => seq!['i', 'f'],
            TokenKind::Else => seq!['e', 'l', 's', 'e'],
            TokenKind::Variable => seq!['v', 'a', 'r', 'i', 'a', 'b', 'l', 'e'],
            TokenKind::For => seq!['f', 'o', 'r'],
            TokenKind::Function => seq!['f', 'u', 'n', 'c', 't', 'i', 'o', 'n'],
            TokenKind::Container => seq!['c', 'o', 'n', 't', 'a', 'i', 'n', 'e', 'r'],
            TokenKind::Identifier => Seq::empty(),
            TokenKind::True => seq!['t', 'r', 'u', 'e'],
            TokenKind::False => seq!['f', 'a', 'l', 's', 'e'],
            TokenKind::NumberLiteral => Seq::empty(),
            TokenKind::StringLiteral => Seq::empty(),
            TokenKind::Semicolon => seq![';'],
            TokenKind::Comma => seq![','],
            TokenKind::OpenBracket => seq!['['],
            TokenKind::CloseBracket => seq![']'],
            TokenKind::OpenParentheses => seq!['('],
            TokenKind::CloseParentheses => seq![')'],
            TokenKind::OpenCurlyBrace => seq!['{'],
            TokenKind::CloseCurlyBrace => seq!['}'],
            TokenKind::Dot => seq!['.'],
            TokenKind::Assignment => seq!['='],
            TokenKind::Equality => seq!['=', '='],
            TokenKind::GreaterThan => seq!['>'],
            TokenKind::GreaterEqualTo => seq!['>', '='],
            TokenKind::LessThan => seq!['<'],
            TokenKind::LessEqualTo => seq!['<', '='],
            TokenKind::LogicalNot => seq!['!'],
            TokenKind::LogicalNotEqualTo => seq!['!', '='],
            TokenKind::LogicalOr => seq!['|', '|'],
            TokenKind::LogicalAnd => seq!['&', '&'],
            TokenKind::BitwiseOr => seq!['|'],
            TokenKind::BitwiseAnd => seq!['&'],
            TokenKind::BitwiseNot => seq!['~'],
            TokenKind::SubtractEqual => seq!['-', '='],
            TokenKind::AddEqual => seq!['+', '='],
            TokenKind::MultiplyEqual => seq!['*', '='],
            TokenKind::DivideEqual => seq!['/', '='],
            TokenKind::Subtraction => seq!['-'],
            TokenKind::Addition => seq!['+'],
            TokenKind::Multiply => seq!['*'],
            TokenKind::Divide => seq!['/'],
        }
    }

    /// The fixed spelling of the kind; empty for the kinds that carry a payload.
    pub fn spelled(self) -> (r: String)
        ensures
            r@ == self.spelling(),
    {
        proof {
            reveal_strlit("if");
            reveal_strlit("else");
            reveal_strlit("variable");
            reveal_strlit("for");
            reveal_strlit("function");
            reveal_strlit("container");
            reveal_strlit("true");
            reveal_strlit("false");
            reveal_strlit(";");
            reveal_strlit(",");
            reveal_strlit("[");
            reveal_strlit("]");
            reveal_strlit("(");
            reveal_strlit(")");
            reveal_strlit("{");
            reveal_strlit("}");
            reveal_strlit(".");
            reveal_strlit("=");
            reveal_strlit("==");
            reveal_strlit(">");
            reveal_strlit(">=");
            reveal_strlit("<");
            reveal_strlit("<=");
            reveal_strlit("!");
            reveal_strlit("!=");
            reveal_strlit("||");
            reveal_strlit("&&");
            reveal_strlit("|");
            reveal_strlit("&");
            reveal_strlit("~");
            reveal_strlit("-=");
            reveal_strlit("+=");
            reveal_strlit("*=");
            reveal_strlit("/=");
            reveal_strlit("-");
            reveal_strlit("+");
            reveal_strlit("*");
            reveal_strlit("/");
        }
        let r = match self {
            TokenKind::If => "if".to_owned(),
            TokenKind::Else => "else".to_owned(),
            TokenKind::Variable => "variable".to_owned(),
            TokenKind::For => "for".to_owned(),
            TokenKind::Function => "function".to_owned(),
            TokenKind::Container => "container".to_owned(),
            TokenKind::Identifier => String::new(),
            TokenKind::True => "true".to_owned(),
            TokenKind::False => "false".to_owned(),
            TokenKind::NumberLiteral => String::new(),
            TokenKind::StringLiteral => String::new(),
            TokenKind::Semicolon => ";".to_owned(),
            TokenKind::Comma => ",".to_owned(),
            TokenKind::OpenBracket => "[".to_owned(),
            TokenKind::CloseBracket => "]".to_owned(),
            TokenKind::OpenParentheses => "(".to_owned(),
            TokenKind::CloseParentheses => ")".to_owned(),
            TokenKind::OpenCurlyBrace => "{".to_owned(),
            TokenKind::CloseCurlyBrace => "}".to_owned(),
            TokenKind::Dot => ".".to_owned(),
            TokenKind::Assignment => "=".to_owned(),
            TokenKind::Equality => "==".to_owned(),
            TokenKind::GreaterThan => ">".to_owned(),
            TokenKind::GreaterEqualTo => ">=".to_owned(),
            TokenKind::LessThan => "<".to_owned(),
            TokenKind::LessEqualTo => "<=".to_owned(),
            TokenKind::LogicalNot => "!".to_owned(),
            TokenKind::LogicalNotEqualTo => "!=".to_owned(),
            TokenKind::LogicalOr => "||".to_owned(),
            TokenKind::LogicalAnd => "&&".to_owned(),
            TokenKind::BitwiseOr => "|".to_owned(),
            TokenKind::BitwiseAnd => "&".to_owned(),
            TokenKind::BitwiseNot => "~".to_owned(),
            TokenKind::SubtractEqual => "-=".to_owned(),
            TokenKind::AddEqual => "+=".to_owned(),
            TokenKind::MultiplyEqual => "*=".to_owned(),
            TokenKind::DivideEqual => "/=".to_owned(),
            TokenKind::Subtraction => "-".to_owned(),
            TokenKind::Addition => "+".to_owned(),
            TokenKind::Multiply => "*".to_owned(),
            TokenKind::Divide => "/".to_owned(),
        };
        assert(r@ =~= self.spelling());
        r
    }

    /// Whether tokens of this kind carry a payload.
    pub fn carries_payload(self) -> (r: bool)
        ensures
            r == self.has_payload(),
    {
        match self {
            TokenKind::Identifier | TokenKind::NumberLiteral | TokenKind::StringLiteral => true,
            _ => false,
        }
    }
}

/// A classified lexeme with the place where it starts.
#[derive(Debug, Clone, PartialEq, Eq)]
pub enum Token {
    If(Location),
    Else(Location),
    Variable(Location),
    For(Location),
    Function(Location),
    Container(Location),
    Identifier(Location, String),
    True(Location),
    False(Location),
    NumberLiteral(Location, String),
    StringLiteral(Location, String),
    Semicolon(Location),
    Comma(Location),
    OpenBracket(Location),
    CloseBracket(Location),
    OpenParentheses(Location),
    CloseParentheses(Location),
    OpenCurlyBrace(Location),
    CloseCurlyBrace(Location),
    Dot(Location),
    Assignment(Location),
    Equality(Location),
    GreaterThan(Location),
    GreaterEqualTo(Location),
    LessThan(Location),
    LessEqualTo(Location),
    LogicalNot(Location),
    LogicalNotEqualTo(Location),
    LogicalOr(Location),
    LogicalAnd(Location),
    BitwiseOr(Location),
    BitwiseAnd(Location),
    BitwiseNot(Location),
    SubtractEqual(Location),
    AddEqual(Location),
    MultiplyEqual(Location),
    DivideEqual(Location),
    Subtraction(Location),
    Addition(Location),
    Multiply(Location),
    Divide(Location),
}

/// What a token stands for: its kind, where it starts, and its payload (empty
/// for the kinds that carry none).
pub struct Lexeme {
    pub kind: TokenKind,
    pub location: Location,
    pub payload: Seq<char>,
}

impl Lexeme {
    /// The token as it is written in source text: the spelling of a fixed token,
    /// the payload of a name or number, the payload between quotes of a string.
    pub open spec fn text(self) -> Seq<char> {
        if self.kind == TokenKind::StringLiteral {
            seq!['"'] + self.payload + seq!['"']
        } else if self.kind.has_payload() {
            self.payload
        } else {
            self.kind.spelling()
        }
    }
}

impl Token {
    /// The kind of the token.
    pub open spec fn kind_of(self) -> TokenKind {
        match self {
            Token::If(_) => TokenKind::If,
            Token::Else(_) => TokenKind::Else,
            Token::Variable(_) => TokenKind::Variable,
            Token::For(_) => TokenKind::For,
            Token::Function(_) => TokenKind::Function,
            Token::Container(_) => TokenKind::Container,
            Token::Identifier(_, _) => TokenKind::Identifier,
            Token::True(_) => TokenKind::True,
            Token::False(_) => TokenKind::False,
            Token::NumberLiteral(_, _) => TokenKind::NumberLiteral,
            Token::StringLiteral(_, _) => TokenKind::StringLiteral,
            Token::Semicolon(_) => TokenKind::Semicolon,
            Token::Comma(_) => TokenKind::Comma,
            Token::OpenBracket(_) => TokenKind::OpenBracket,
            Token::CloseBracket(_) => TokenKind::CloseBracket,
            Token::OpenParentheses(_) => TokenKind::OpenParentheses,
            Token::CloseParentheses(_) => TokenKind::CloseParentheses,
            Token::OpenCurlyBrace(_) => TokenKind::OpenCurlyBrace,
            Token::CloseCurlyBrace(_) => TokenKind::CloseCurlyBrace,
            Token::Dot(_) => TokenKind::Dot,
            Token::Assignment(_) => TokenKind::Assignment,
            Token::Equality(_) => TokenKind::Equality,
            Token::GreaterThan(_) => TokenKind::GreaterThan,
            Token::GreaterEqualTo(_) => TokenKind::GreaterEqualTo,
            Token::LessThan(_) => TokenKind::LessThan,
            Token::LessEqualTo(_) => TokenKind::LessEqualTo,
            Token::LogicalNot(_) => TokenKind::LogicalNot,
            Token::LogicalNotEqualTo(_) => TokenKind::LogicalNotEqualTo,
            Token::LogicalOr(_) => TokenKind::LogicalOr,
            Token::LogicalAnd(_) => TokenKind::LogicalAnd,
            Token::BitwiseOr(_) => TokenKind::BitwiseOr,
            Token::BitwiseAnd(_) => TokenKind::BitwiseAnd,
            Token::BitwiseNot(_) => TokenKind::BitwiseNot,
            Token::SubtractEqual(_) => TokenKind::SubtractEqual,
            Token::AddEqual(_) => TokenKind::AddEqual,
            Token::MultiplyEqual(_) => TokenKind::MultiplyEqual,
            Token::DivideEqual(_) => TokenKind::DivideEqual,
            Token::Subtraction(_) => TokenKind::Subtraction,
            Token::Addition(_) => TokenKind::Addition,
            Token::Multiply(_) => TokenKind::Multiply,
            Token::Divide(_) => TokenKind::Divide,
        }
    }

    /// The place where the token starts.
    pub open spec fn location_of(self) -> Location {
        match self {
            Token::If(l) => l,
            Token::Else(l) => l,
            Token::Variable(l) => l,
            Token::For(l) => l,
            Token::Function(l) => l,
            Token::Container(l) => l,
            Token::Identifier(l, _) => l,
            Token::True(l) => l,
            Token::False(l) => l,
            Token::NumberLiteral(l, _) => l,
            Token::StringLiteral(l, _) => l,
            Token::Semicolon(l) => l,
            Token::Comma(l) => l,
            Token::OpenBracket(l) => l,
            Token::CloseBracket(l) => l,
            Token::OpenParentheses(l) => l,
            Token::CloseParentheses(l) => l,
            Token::OpenCurlyBrace(l) => l,
            Token::CloseCurlyBrace(l) => l,
            Token::Dot(l) => l,
            Token::Assignment(l) => l,
            Token::Equality(l) => l,
            Token::GreaterThan(l) => l,
            Token::GreaterEqualTo(l) => l,
            Token::LessThan(l) => l,
            Token::LessEqualTo(l) => l,
            Token::LogicalNot(l) => l,
            Token::LogicalNotEqualTo(l) => l,
            Token::LogicalOr(l) => l,
            Token::LogicalAnd(l) => l,
            Token::BitwiseOr(l) => l,
            Token::BitwiseAnd(l) => l,
            Token::BitwiseNot(l) => l,
            Token::SubtractEqual(l) => l,
            Token::AddEqual(l) => l,
            Token::MultiplyEqual(l) => l,
            Token::DivideEqual(l) => l,
            Token::Subtraction(l) => l,
            Token::Addition(l) => l,
            Token::Multiply(l) => l,
            Token::Divide(l) => l,
        }
    }

    /// The payload of a name, a number or a string; empty for any other kind.
    pub open spec fn payload_of(self) -> Seq<char> {
        match self {
            Token::Identifier(_, p) => p@,
            Token::NumberLiteral(_, p) => p@,
            Token::StringLiteral(_, p) => p@,
            _ => Seq::empty(),
        }
    }
}

impl View for Token {
    type V = Lexeme;

    open spec fn view(&self) -> Lexeme {
        Lexeme { kind: self.kind_of(), location: self.location_of(), payload: self.payload_of() }
    }
}

/// What a list of tokens stands for, token by token.
pub open spec fn lexemes_of(tokens: Seq<Token>) -> Seq<Lexeme> {
    tokens.map_values(|t: Token| t@)
}

impl Token {
    /// The token of the given kind at the given place. The payload is kept for a
    /// name, a number or a string, and dropped for any other kind.
    pub fn of(kind: TokenKind, location: Location, payload: String) -> (r: Token)
        ensures
            r@.kind == kind,
            r@.location == location,
            r@.payload == (if kind.has_payload() {
                payload@
            } else {
                Seq::empty()
            }),
    {
        match kind {
            TokenKind::If => Token::If(location),
            TokenKind::Else => Token::Else(location),
            TokenKind::Variable => Token::Variable(location),
            TokenKind::For => Token::For(location),
            TokenKind::Function => Token::Function(location),
            TokenKind::Container => Token::Container(location),
            TokenKind::Identifier => Token::Identifier(location, payload),
            TokenKind::True => Token::True(location),
            TokenKind::False => Token::False(location),
            TokenKind::NumberLiteral => Token::NumberLiteral(location, payload),
            TokenKind::StringLiteral => Token::StringLiteral(location, payload),
            TokenKind::Semicolon => Token::Semicolon(location),
            TokenKind::Comma => Token::Comma(location),
            TokenKind::OpenBracket => Token::OpenBracket(location),
            TokenKind::CloseBracket => Token::CloseBracket(location),
            TokenKind::OpenParentheses => Token::OpenParentheses(location),
            TokenKind::CloseParentheses => Token::CloseParentheses(location),
            TokenKind::OpenCurlyBrace => Token::OpenCurlyBrace(location),
            TokenKind::CloseCurlyBrace => Token::CloseCurlyBrace(location),
            TokenKind::Dot => Token::Dot(location),
            TokenKind::Assignment => Token::Assignment(location),
            TokenKind::Equality => Token::Equality(location),
            TokenKind::GreaterThan => Token::GreaterThan(location),
            TokenKind::GreaterEqualTo => Token::GreaterEqualTo(location),
            TokenKind::LessThan => Token::LessThan(location),
            TokenKind::LessEqualTo => Token::LessEqualTo(location),
            TokenKind::LogicalNot => Token::LogicalNot(location),
            TokenKind::LogicalNotEqualTo => Token::LogicalNotEqualTo(location),
            TokenKind::LogicalOr => Token::LogicalOr(location),
            TokenKind::LogicalAnd => Token::LogicalAnd(location),
            TokenKind::BitwiseOr => Token::BitwiseOr(location),
            TokenKind::BitwiseAnd => Token::BitwiseAnd(location),
            TokenKind::BitwiseNot => Token::BitwiseNot(location),
            TokenKind::SubtractEqual => Token::SubtractEqual(location),
            TokenKind::AddEqual => Token::AddEqual(location),
            TokenKind::MultiplyEqual => Token::MultiplyEqual(location),
            TokenKind::DivideEqual => Token::DivideEqual(location),
            TokenKind::Subtraction => Token::Subtraction(location),
            TokenKind::Addition => Token::Addition(location),
            TokenKind::Multiply => Token::Multiply(location),
            TokenKind::Divide => Token::Divide(location),
        }
    }

    /// The kind of the token.
    pub fn kind(&self) -> (r: TokenKind)
        ensures
            r == self@.kind,
    {
        match self {
            Token::If(_) => TokenKind::If,
            Token::Else(_) => TokenKind::Else,
            Token::Variable(_) => TokenKind::Variable,
            Token::For(_) => TokenKind::For,
            Token::Function(_) => TokenKind::Function,
            Token::Container(_) => TokenKind::Container,
            Token::Identifier(_, _) => TokenKind::Identifier,
            Token::True(_) => TokenKind::True,
            Token::False(_) => TokenKind::False,
            Token::NumberLiteral(_, _) => TokenKind::NumberLiteral,
            Token::StringLiteral(_, _) => TokenKind::StringLiteral,
            Token::Semicolon(_) => TokenKind::Semicolon,
            Token::Comma(_) => TokenKind::Comma,
            Token::OpenBracket(_) => TokenKind::OpenBracket,
            Token::CloseBracket(_) => TokenKind::CloseBracket,
            Token::OpenParentheses(_) => TokenKind::OpenParentheses,
            Token::CloseParentheses(_) => TokenKind::CloseParentheses,
            Token::OpenCurlyBrace(_) => TokenKind::OpenCurlyBrace,
            Token::CloseCurlyBrace(_) => TokenKind::CloseCurlyBrace,
            Token::Dot(_) => TokenKind::Dot,
            Token::Assignment(_) => TokenKind::Assignment,
            Token::Equality(_) => TokenKind::Equality,
            Token::GreaterThan(_) => TokenKind::GreaterThan,
            Token::GreaterEqualTo(_) => TokenKind::GreaterEqualTo,
            Token::LessThan(_) => TokenKind::LessThan,
            Token::LessEqualTo(_) => TokenKind::LessEqualTo,
            Token::LogicalNot(_) => TokenKind::LogicalNot,
            Token::LogicalNotEqualTo(_) => TokenKind::LogicalNotEqualTo,
            Token::LogicalOr(_) => TokenKind::LogicalOr,
            Token::LogicalAnd(_) => TokenKind::LogicalAnd,
            Token::BitwiseOr(_) => TokenKind::BitwiseOr,
            Token::BitwiseAnd(_) => TokenKind::BitwiseAnd,
            Token::BitwiseNot(_) => TokenKind::BitwiseNot,
            Token::SubtractEqual(_) => TokenKind::SubtractEqual,
            Token::AddEqual(_) => TokenKind::AddEqual,
            Token::MultiplyEqual(_) => TokenKind::MultiplyEqual,
            Token::DivideEqual(_) => TokenKind::DivideEqual,
            Token::Subtraction(_) => TokenKind::Subtraction,
            Token::Addition(_) => TokenKind::Addition,
            Token::Multiply(_) => TokenKind::Multiply,
            Token::Divide(_) => TokenKind::Divide,
        }
    }

    /// The place where the token starts.
    pub fn location(&self) -> (r: Location)
        ensures
            r == self@.location,
    {
        match self {
            Token::If(l) => *l,
            Token::Else(l) => *l,
            Token::Variable(l) => *l,
            Token::For(l) => *l,
            Token::Function(l) => *l,
            Token::Container(l) => *l,
            Token::Identifier(l, _) => *l,
            Token::True(l) => *l,
            Token::False(l) => *l,
            Token::NumberLiteral(l, _) => *l,
            Token::StringLiteral(l, _) => *l,
            Token::Semicolon(l) => *l,
            Token::Comma(l) => *l,
            Token::OpenBracket(l) => *l,
            Token::CloseBracket(l) => *l,
            Token::OpenParentheses(l) => *l,
            Token::CloseParentheses(l) => *l,
            Token::OpenCurlyBrace(l) => *l,
            Token::CloseCurlyBrace(l) => *l,
            Token::Dot(l) => *l,
            Token::Assignment(l) => *l,
            Token::Equality(l) => *l,
            Token::GreaterThan(l) => *l,
            Token::GreaterEqualTo(l) => *l,
            Token::LessThan(l) => *l,
            Token::LessEqualTo(l) => *l,
            Token::LogicalNot(l) => *l,
            Token::LogicalNotEqualTo(l) => *l,
            Token::LogicalOr(l) => *l,
            Token::LogicalAnd(l) => *l,
            Token::BitwiseOr(l) => *l,
            Token::BitwiseAnd(l) => *l,
            Token::BitwiseNot(l) => *l,
            Token::SubtractEqual(l) => *l,
            Token::AddEqual(l) => *l,
            Token::MultiplyEqual(l) => *l,
            Token::DivideEqual(l) => *l,
            Token::Subtraction(l) => *l,
            Token::Addition(l) => *l,
            Token::Multiply(l) => *l,
            Token::Divide(l) => *l,
        }
    }

    /// The payload of a name, a number or a string; `None` for any other kind.
    pub fn payload(&self) -> (r: Option<&String>)
        ensures
            r is Some <==> self@.kind.has_payload(),
            r matches Some(p) ==> p@ == self@.payload,
    {
        match self {
            Token::Identifier(_, p) => Some(p),
            Token::NumberLiteral(_, p) => Some(p),
            Token::StringLiteral(_, p) => Some(p),
            _ => None,
        }
    }

    /// The token as it is written in source text.
    pub fn text(&self) -> (r: String)
        ensures
            r@ == self@.text(),
    {
        match self {
            Token::Identifier(_, p) => p.clone(),
            Token::NumberLiteral(_, p) => p.clone(),
            Token::StringLiteral(_, p) => {
                let mut r = String::new();
                r.push('"');
                r.append(p.as_str());
                r.push('"');
                assert(r@ =~= seq!['"'] + p@ + seq!['"']);
                r
            },
            _ => self.kind().spelled(),
        }
    }
}

} // verus!
