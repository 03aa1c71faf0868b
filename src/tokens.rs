//! Flat tokens and the syntax tree built from them, with their models.
use vstd::prelude::*;

verus! {

/// A lexical unit of a script.
#[derive(Clone, Debug, PartialEq, Eq)]
pub enum BasicToken {
    And,
    Or,
    Pipe,
    FileRedirectOut { append: bool },
    FileRedirectIn,
    Value(String),
}

/// The model of a `BasicToken`: words as character sequences.
pub enum Lexeme {
    And,
    Or,
    Pipe,
    Out(bool),
    In,
    Word(Seq<char>),
}

impl View for BasicToken {
    type V = Lexeme;

    open spec fn view(&self) -> Lexeme {
        match self {
            BasicToken::And => Lexeme::And,
            BasicToken::Or => Lexeme::Or,
            BasicToken::Pipe => Lexeme::Pipe,
            BasicToken::FileRedirectOut { append } => Lexeme::Out(*append),
            BasicToken::FileRedirectIn => Lexeme::In,
            BasicToken::Value(s) => Lexeme::Word(s@),
        }
    }
}

/// The models of a sequence of tokens.
pub open spec fn lexemes(s: Seq<BasicToken>) -> Seq<Lexeme> {
    s.map_values(|t: BasicToken| t@)
}

/// The model of a list of words.
pub open spec fn words(s: Seq<String>) -> Seq<Seq<char>> {
    s.map_values(|w: String| w@)
}

/// A node of the syntax tree.
#[derive(Debug)]
pub enum Token {
    And(Box<Token>, Box<Token>),
    Or(Box<Token>, Box<Token>),
    Pipe(Box<Token>, Box<Token>),
    FileRedirectOut { lhs: Box<Token>, append: bool, path: String },
    FileRedirectIn { lhs: Box<Token>, path: String },
    Command(Vec<String>),
}

/// The model of a syntax tree.
pub enum Ast {
    And(Box<Ast>, Box<Ast>),
    Or(Box<Ast>, Box<Ast>),
    Pipe(Box<Ast>, Box<Ast>),
    Out(Box<Ast>, bool, Seq<char>),
    In(Box<Ast>, Seq<char>),
    Command(Seq<Seq<char>>),
}

/// The model of a node.
pub open spec fn ast_of(t: Token) -> Ast
    decreases t,
{
    match t {
        Token::And(l, r) => Ast::And(Box::new(ast_of(*l)), Box::new(ast_of(*r))),
        Token::Or(l, r) => Ast::Or(Box::new(ast_of(*l)), Box::new(ast_of(*r))),
        Token::Pipe(l, r) => Ast::Pipe(Box::new(ast_of(*l)), Box::new(ast_of(*r))),
        Token::FileRedirectOut { lhs, append, path } => Ast::Out(Box::new(ast_of(*lhs)), append, path@),
        Token::FileRedirectIn { lhs, path } => Ast::In(Box::new(ast_of(*lhs)), path@),
        Token::Command(args) => Ast::Command(words(args@)),
    }
}

impl View for Token {
    type V = Ast;

    open spec fn view(&self) -> Ast {
        ast_of(*self)
    }
}

} // verus!
