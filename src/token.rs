use vstd::prelude::*;

verus! {

/// One classified lexeme. Payload-bearing variants own the exact matched text.
#[derive(Debug)]
pub enum Token {
    Identifier(String),
    Constant(String),
    Keyword(String),
    ParenthesisOpen,
    ParenthesisClose,
    BraceOpen,
    BraceClose,
    Semicolon,
    Comment,
}

/// The mathematical value of a token: its variant, and its payload as characters.
pub enum TokenModel {
    Identifier(Seq<char>),
    Constant(Seq<char>),
    Keyword(Seq<char>),
    ParenthesisOpen,
    ParenthesisClose,
    BraceOpen,
    BraceClose,
    Semicolon,
    Comment,
}

impl View for Token {
    type V = TokenModel;

    open spec fn view(&self) -> TokenModel {
        match self {
            Token::Identifier(s) => TokenModel::Identifier(s@),
            Token::Constant(s) => TokenModel::Constant(s@),
            Token::Keyword(s) => TokenModel::Keyword(s@),
            Token::ParenthesisOpen => TokenModel::ParenthesisOpen,
            Token::ParenthesisClose => TokenModel::ParenthesisClose,
            Token::BraceOpen => TokenModel::BraceOpen,
            Token::BraceClose => TokenModel::BraceClose,
            Token::Semicolon => TokenModel::Semicolon,
            Token::Comment => TokenModel::Comment,
        }
    }
}

/// The models of a sequence of tokens, in order.
pub open spec fn tokens_model(ts: Seq<Token>) -> Seq<TokenModel> {
    ts.map_values(|t: Token| t@)
}

impl Token {
    /// An independent copy of this token.
    pub fn duplicate(&self) -> (r: Token)
        ensures
            r@ == self@,
    {
        match self {
            Token::Identifier(s) => Token::Identifier(s.clone()),
            Token::Constant(s) => Token::Constant(s.clone()),
            Token::Keyword(s) => Token::Keyword(s.clone()),
            Token::ParenthesisOpen => Token::ParenthesisOpen,
            Token::ParenthesisClose => Token::ParenthesisClose,
            Token::BraceOpen => Token::BraceOpen,
            Token::BraceClose => Token::BraceClose,
            Token::Semicolon => Token::Semicolon,
            Token::Comment => Token::Comment,
        }
    }
}

impl PartialEq for Token {
    fn eq(&self, other: &Token) -> (r: bool) {
        match (self, other) {
            (Token::Identifier(a), Token::Identifier(b)) => a.eq(b),
            (Token::Constant(a), Token::Constant(b)) => a.eq(b),
            (Token::Keyword(a), Token::Keyword(b)) => a.eq(b),
            (Token::ParenthesisOpen, Token::ParenthesisOpen) => true,
            (Token::ParenthesisClose, Token::ParenthesisClose) => true,
            (Token::BraceOpen, Token::BraceOpen) => true,
            (Token::BraceClose, Token::BraceClose) => true,
            (Token::Semicolon, Token::Semicolon) => true,
            (Token::Comment, Token::Comment) => true,
            _ => false,
        }
    }
}

impl vstd::std_specs::cmp::PartialEqSpecImpl for Token {
    open spec fn obeys_eq_spec() -> bool {
        true
    }

    open spec fn eq_spec(&self, other: &Token) -> bool {
        self@ == other@
    }
}

impl Eq for Token {

}

} // verus!
