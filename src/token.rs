//! Tokens, as the lexer hands them to the engine.
use vstd::prelude::*;

verus! {

/// The kind of a token.
#[derive(Clone, Copy, Debug, PartialEq, Eq, Structural)]
pub enum TokenType {
    Ident,
    Keyword,
    Type,
    Operator,
    Number,
    Symbol,
    BackLine,
    New,
    End,
    EndProgram,
    ERROR,
}

/// A mark that the lexer sets on some symbols.
#[derive(Clone, Copy, Debug, PartialEq, Eq, Structural)]
pub enum Flag {
    Plain,
    Comma,
}

/// A token: its kind, its text and its mark.
#[derive(Debug)]
pub struct Token {
    pub token_type: TokenType,
    pub content: String,
    pub flag: Flag,
}

impl Token {
    /// A token without mark.
    pub fn new(token_type: TokenType, content: String) -> (r: Token)
        ensures
            r.token_type == token_type,
            r.content == content,
            r.flag == Flag::Plain,
    {
        Token { token_type, content, flag: Flag::Plain }
    }

    /// A token with a mark.
    pub fn with_flag(token_type: TokenType, content: String, flag: Flag) -> (r: Token)
        ensures
            r.token_type == token_type,
            r.content == content,
            r.flag == flag,
    {
        Token { token_type, content, flag }
    }
}

} // verus!
