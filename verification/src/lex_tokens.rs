//! The tokens the lexer produces and the parser reads.
use vstd::prelude::*;

verus! {

#[derive(Debug, Clone)]
pub enum LexTokenType {
    Contract,
    Symbol,
    Decimals,
    Supply,
    Mintable,
    Burnable,
    Capped,
    Owner,
    Identifier(String),
    StringLit(String),
    IntegerLit(String),
    AddressLit { bytes: [u8; 20], raw: String },
    OpenBrace,
    CloseBrace,
    EOF,
}

#[derive(Debug, Clone)]
pub struct LexToken {
    pub token_type: LexTokenType,
    pub line: usize,
    pub col: usize,
}

/// The mathematical value of a token type: text as character sequences.
pub enum TokenKind {
    Contract,
    Symbol,
    Decimals,
    Supply,
    Mintable,
    Burnable,
    Capped,
    Owner,
    Identifier(Seq<char>),
    StringLit(Seq<char>),
    IntegerLit(Seq<char>),
    AddressLit { bytes: Seq<u8>, raw: Seq<char> },
    OpenBrace,
    CloseBrace,
    EOF,
}

pub struct TokenView {
    pub kind: TokenKind,
    pub line: nat,
    pub col: nat,
}

impl View for LexTokenType {
    type V = TokenKind;

    open spec fn view(&self) -> TokenKind {
        match self {
            LexTokenType::Contract => TokenKind::Contract,
            LexTokenType::Symbol => TokenKind::Symbol,
            LexTokenType::Decimals => TokenKind::Decimals,
            LexTokenType::Supply => TokenKind::Supply,
            LexTokenType::Mintable => TokenKind::Mintable,
            LexTokenType::Burnable => TokenKind::Burnable,
            LexTokenType::Capped => TokenKind::Capped,
            LexTokenType::Owner => TokenKind::Owner,
            LexTokenType::Identifier(s) => TokenKind::Identifier(s@),
            LexTokenType::StringLit(s) => TokenKind::StringLit(s@),
            LexTokenType::IntegerLit(s) => TokenKind::IntegerLit(s@),
            LexTokenType::AddressLit { bytes, raw } => TokenKind::AddressLit {
                bytes: bytes@,
                raw: raw@,
            },
            LexTokenType::OpenBrace => TokenKind::OpenBrace,
            LexTokenType::CloseBrace => TokenKind::CloseBrace,
            LexTokenType::EOF => TokenKind::EOF,
        }
    }
}

impl View for LexToken {
    type V = TokenView;

    open spec fn view(&self) -> TokenView {
        TokenView { kind: self.token_type@, line: self.line as nat, col: self.col as nat }
    }
}

pub open spec fn tokens_view(ts: Seq<LexToken>) -> Seq<TokenView> {
    ts.map_values(|t: LexToken| t@)
}

/// The keywords that name a contract field, in the order the suggestion for an
/// unknown field considers them.
pub open spec fn field_keyword_views() -> Seq<Seq<char>> {
    seq!["symbol"@, "decimals"@, "supply"@, "mintable"@, "burnable"@, "capped"@, "owner"@]
}

impl LexTokenType {
    /// The keywords that name a contract field.
    pub fn field_keywords() -> (r: Vec<&'static str>)
        ensures
            r@.map_values(|x: &str| x@) == field_keyword_views(),
    {
        let mut r: Vec<&'static str> = Vec::new();
        r.push("symbol");
        r.push("decimals");
        r.push("supply");
        r.push("mintable");
        r.push("burnable");
        r.push("capped");
        r.push("owner");
        assert(r@.map_values(|x: &str| x@) =~= field_keyword_views());
        r
    }
}

} // verus!
