//! Reads the tokens of a `.tc` file into a `ContractNode`.
use vstd::prelude::*;
use vstd::string::*;
use crate::ast::{
    AddressField, ContractNode, ContractView, FlagField, IntField, Pos, Position, StringField,
};
use crate::errors::{
    error_view, get_source_line, opt_string_view, source_line_of, str_views, suggest_closest,
    suggestion_for, CompileError, ErrorKind, ErrorView,
};
use crate::lex_tokens::{field_keyword_views, tokens_view, LexToken, LexTokenType, TokenKind, TokenView};
use crate::text::{concat2, concat3, decimal, decimal_string, parse_u64, parse_u64_spec};

verus! {

// ---------------------------------------------------------------------------
// What the parser computes
// ---------------------------------------------------------------------------

/// How an error message names a token.
pub open spec fn describe(k: TokenKind) -> Seq<char> {
    match k {
        TokenKind::StringLit(s) => "string \""@ + s + "\""@,
        TokenKind::IntegerLit(s) => "number "@ + s,
        TokenKind::AddressLit { raw, .. } => "address "@ + raw,
        TokenKind::Identifier(s) => "identifier '"@ + s + "'"@,
        TokenKind::OpenBrace => "'{'"@,
        TokenKind::CloseBrace => "'}'"@,
        TokenKind::Contract => "keyword 'contract'"@,
        TokenKind::Symbol => "keyword 'symbol'"@,
        TokenKind::Decimals => "keyword 'decimals'"@,
        TokenKind::Supply => "keyword 'supply'"@,
        TokenKind::Mintable => "keyword 'mintable'"@,
        TokenKind::Burnable => "keyword 'burnable'"@,
        TokenKind::Capped => "keyword 'capped'"@,
        TokenKind::Owner => "keyword 'owner'"@,
        TokenKind::EOF => "end of file"@,
    }
}

/// A parse error reported at token `i`, with the text of its line.
pub open spec fn parse_error_at(
    message: Seq<char>,
    toks: Seq<TokenView>,
    i: int,
    src: Seq<char>,
) -> ErrorView {
    error_view(
        ErrorKind::ParseError,
        message,
        toks[i].line,
        toks[i].col,
        source_line_of(src, toks[i].line),
    )
}

pub open spec fn pos_of(t: TokenView) -> Pos {
    Pos { line: t.line, col: t.col }
}

/// The error for a field declared twice; `first` is where it was declared first.
pub open spec fn duplicate_error(
    name: Seq<char>,
    first_line: nat,
    toks: Seq<TokenView>,
    i: int,
    src: Seq<char>,
) -> ErrorView {
    parse_error_at(
        "Duplicate '"@ + name + "' declaration — already set on line "@ + decimal(first_line),
        toks,
        i,
        src,
    )
}

/// The error for an unknown field name, with a suggestion when one is close.
pub open spec fn unknown_field_error(
    word: Seq<char>,
    toks: Seq<TokenView>,
    i: int,
    src: Seq<char>,
) -> ErrorView {
    let base = parse_error_at("Unknown field '"@ + word + "'"@, toks, i, src);
    match suggestion_for(word, field_keyword_views(), 3) {
        Some(s) => ErrorView { suggestion: Some("Did you mean '"@ + s + "'?"@), ..base },
        None => base,
    }
}

/// The number after the keyword at `q`, read for field `name`. `None` when
/// there is no token after the keyword.
pub open spec fn int_value_at(toks: Seq<TokenView>, src: Seq<char>, q: int, name: Seq<char>) -> Option<
    Result<u64, ErrorView>,
> {
    if q + 1 >= toks.len() {
        None
    } else {
        match toks[q + 1].kind {
            TokenKind::IntegerLit(v) => match parse_u64_spec(v) {
                Some(n) => Some(Ok(n)),
                None => Some(
                    Err(
                        parse_error_at(
                            "Invalid "@ + name + " value '"@ + v + "'"@,
                            toks,
                            q + 1,
                            src,
                        ),
                    ),
                ),
            },
            other => Some(
                Err(
                    parse_error_at(
                        "'"@ + name + "' expects a number, got "@ + describe(other),
                        toks,
                        q + 1,
                        src,
                    ),
                ),
            ),
        }
    }
}

pub open spec fn string_value_at(toks: Seq<TokenView>, src: Seq<char>, q: int) -> Option<
    Result<Seq<char>, ErrorView>,
> {
    if q + 1 >= toks.len() {
        None
    } else {
        match toks[q + 1].kind {
            TokenKind::StringLit(v) => Some(Ok(v)),
            other => Some(
                Err(
                    parse_error_at(
                        "'symbol' expects a string, got "@ + describe(other),
                        toks,
                        q + 1,
                        src,
                    ),
                ),
            ),
        }
    }
}

pub open spec fn address_value_at(toks: Seq<TokenView>, src: Seq<char>, q: int) -> Option<
    Result<Seq<u8>, ErrorView>,
> {
    if q + 1 >= toks.len() {
        None
    } else {
        match toks[q + 1].kind {
            TokenKind::AddressLit { bytes, .. } => Some(Ok(bytes)),
            other => Some(
                Err(
                    parse_error_at(
                        "'owner' expects an address, got "@ + describe(other),
                        toks,
                        q + 1,
                        src,
                    ),
                ),
            ),
        }
    }
}

pub type FieldsOutcome = Option<Result<(ContractView, int), ErrorView>>;

/// Reading fields from token `q` on, into contract `c`. `Ok` holds the
/// completed contract and the index of the closing brace; `None` means the
/// tokens ran out before an end-of-file token.
pub open spec fn parse_fields_from(
    toks: Seq<TokenView>,
    src: Seq<char>,
    q: int,
    c: ContractView,
) -> FieldsOutcome
    decreases toks.len() - q,
{
    if q < 0 || q >= toks.len() {
        None
    } else {
        let here = pos_of(toks[q]);
        match toks[q].kind {
            TokenKind::CloseBrace => Some(Ok((c, q))),
            TokenKind::Supply => match c.supply {
                Some((_, first)) => Some(Err(duplicate_error("supply"@, first.line, toks, q, src))),
                None => match int_value_at(toks, src, q, "supply"@) {
                    None => None,
                    Some(Err(e)) => Some(Err(e)),
                    Some(Ok(n)) => parse_fields_from(
                        toks,
                        src,
                        q + 2,
                        ContractView { supply: Some((n, here)), ..c },
                    ),
                },
            },
            TokenKind::Symbol => match c.symbol {
                Some((_, first)) => Some(Err(duplicate_error("symbol"@, first.line, toks, q, src))),
                None => match string_value_at(toks, src, q) {
                    None => None,
                    Some(Err(e)) => Some(Err(e)),
                    Some(Ok(v)) => parse_fields_from(
                        toks,
                        src,
                        q + 2,
                        ContractView { symbol: Some((v, here)), ..c },
                    ),
                },
            },
            TokenKind::Decimals => match c.decimals {
                Some((_, first)) => Some(Err(duplicate_error("decimals"@, first.line, toks, q, src))),
                None => match int_value_at(toks, src, q, "decimals"@) {
                    None => None,
                    Some(Err(e)) => Some(Err(e)),
                    Some(Ok(n)) => parse_fields_from(
                        toks,
                        src,
                        q + 2,
                        ContractView { decimals: Some((n, here)), ..c },
                    ),
                },
            },
            TokenKind::Mintable => match c.mintable {
                Some(first) => Some(Err(duplicate_error("mintable"@, first.line, toks, q, src))),
                None => parse_fields_from(
                    toks,
                    src,
                    q + 1,
                    ContractView { mintable: Some(here), ..c },
                ),
            },
            TokenKind::Burnable => match c.burnable {
                Some(first) => Some(Err(duplicate_error("burnable"@, first.line, toks, q, src))),
                None => parse_fields_from(
                    toks,
                    src,
                    q + 1,
                    ContractView { burnable: Some(here), ..c },
                ),
            },
            TokenKind::Capped => match c.capped {
                Some((_, first)) => Some(Err(duplicate_error("capped"@, first.line, toks, q, src))),
                None => match int_value_at(toks, src, q, "capped"@) {
                    None => None,
                    Some(Err(e)) => Some(Err(e)),
                    Some(Ok(n)) => parse_fields_from(
                        toks,
                        src,
                        q + 2,
                        ContractView { capped: Some((n, here)), ..c },
                    ),
                },
            },
            TokenKind::Owner => match c.owner {
                Some((_, first)) => Some(Err(duplicate_error("owner"@, first.line, toks, q, src))),
                None => match address_value_at(toks, src, q) {
                    None => None,
                    Some(Err(e)) => Some(Err(e)),
                    Some(Ok(b)) => parse_fields_from(
                        toks,
                        src,
                        q + 2,
                        ContractView { owner: Some((b, here)), ..c },
                    ),
                },
            },
            TokenKind::Identifier(w) => Some(Err(unknown_field_error(w, toks, q, src))),
            TokenKind::EOF => Some(
                Err(parse_error_at("Expected '}' to close contract block"@, toks, q, src)),
            ),
            other => Some(
                Err(parse_error_at("Unexpected token "@ + describe(other), toks, q, src)),
            ),
        }
    }
}

/// The contract as it stands when reading fields from token `q` on, into
/// contract `c`, stops: a field is only set once its value has been read, so
/// at an error the contract holds exactly the fields read before it.
pub open spec fn fields_at_failure(
    toks: Seq<TokenView>,
    src: Seq<char>,
    q: int,
    c: ContractView,
) -> ContractView
    decreases toks.len() - q,
{
    if q < 0 || q >= toks.len() {
        c
    } else {
        let here = pos_of(toks[q]);
        match toks[q].kind {
            TokenKind::Supply => match (c.supply, int_value_at(toks, src, q, "supply"@)) {
                (None, Some(Ok(n))) => fields_at_failure(
                    toks,
                    src,
                    q + 2,
                    ContractView { supply: Some((n, here)), ..c },
                ),
                _ => c,
            },
            TokenKind::Symbol => match (c.symbol, string_value_at(toks, src, q)) {
                (None, Some(Ok(v))) => fields_at_failure(
                    toks,
                    src,
                    q + 2,
                    ContractView { symbol: Some((v, here)), ..c },
                ),
                _ => c,
            },
            TokenKind::Decimals => match (c.decimals, int_value_at(toks, src, q, "decimals"@)) {
                (None, Some(Ok(n))) => fields_at_failure(
                    toks,
                    src,
                    q + 2,
                    ContractView { decimals: Some((n, here)), ..c },
                ),
                _ => c,
            },
            TokenKind::Mintable => match c.mintable {
                None => fields_at_failure(toks, src, q + 1, ContractView { mintable: Some(here), ..c }),
                Some(_) => c,
            },
            TokenKind::Burnable => match c.burnable {
                None => fields_at_failure(toks, src, q + 1, ContractView { burnable: Some(here), ..c }),
                Some(_) => c,
            },
            TokenKind::Capped => match (c.capped, int_value_at(toks, src, q, "capped"@)) {
                (None, Some(Ok(n))) => fields_at_failure(
                    toks,
                    src,
                    q + 2,
                    ContractView { capped: Some((n, here)), ..c },
                ),
                _ => c,
            },
            TokenKind::Owner => match (c.owner, address_value_at(toks, src, q)) {
                (None, Some(Ok(b))) => fields_at_failure(
                    toks,
                    src,
                    q + 2,
                    ContractView { owner: Some((b, here)), ..c },
                ),
                _ => c,
            },
            _ => c,
        }
    }
}

/// A contract with a name and no fields.
pub open spec fn empty_contract(name: Seq<char>, at: Pos) -> ContractView {
    ContractView {
        name,
        name_position: at,
        symbol: None,
        decimals: None,
        supply: None,
        mintable: None,
        burnable: None,
        capped: None,
        owner: None,
    }
}

/// The outcome of parsing `toks` from token `p`: `contract NAME { fields } EOF`.
/// `None` means the tokens run out before the parser meets an end-of-file token.
pub open spec fn parse_from(toks: Seq<TokenView>, src: Seq<char>, p: int) -> Option<
    Result<ContractView, ErrorView>,
> {
    if p < 0 || p >= toks.len() {
        None
    } else if !(toks[p].kind is Contract) {
        Some(Err(parse_error_at("Expected 'contract' keyword"@, toks, p, src)))
    } else if p + 1 >= toks.len() {
        None
    } else {
        match toks[p + 1].kind {
            TokenKind::Identifier(name) => {
                if p + 2 >= toks.len() {
                    None
                } else if !(toks[p + 2].kind is OpenBrace) {
                    Some(Err(parse_error_at("Expected '{' after contract name"@, toks, p + 2, src)))
                } else {
                    match parse_fields_from(
                        toks,
                        src,
                        p + 3,
                        empty_contract(name, pos_of(toks[p + 1])),
                    ) {
                        None => None,
                        Some(Err(e)) => Some(Err(e)),
                        Some(Ok((c, q))) => {
                            if q + 1 >= toks.len() {
                                None
                            } else if !(toks[q + 1].kind is EOF) {
                                Some(
                                    Err(
                                        parse_error_at(
                                            "Unexpected content after contract block"@,
                                            toks,
                                            q + 1,
                                            src,
                                        ),
                                    ),
                                )
                            } else {
                                Some(Ok(c))
                            }
                        },
                    }
                }
            },
            _ => Some(
                Err(parse_error_at("Missing contract name after 'contract'"@, toks, p + 1, src)),
            ),
        }
    }
}

/// A field declared a second time: a parse error at the second keyword that
/// names the field and the line of its first declaration.
pub open spec fn redeclared(
    field: Seq<char>,
    first_line: nat,
    toks: Seq<TokenView>,
    q: int,
    src: Seq<char>,
) -> ErrorView {
    error_view(
        ErrorKind::ParseError,
        "Duplicate '"@ + field + "' declaration — already set on line "@ + decimal(first_line),
        toks[q].line,
        toks[q].col,
        source_line_of(src, toks[q].line),
    )
}

/// No field can be declared twice: meeting the keyword of a field that the
/// contract already holds stops the reading with the duplicate error,
/// whatever follows.
pub proof fn lemma_field_declared_twice(
    toks: Seq<TokenView>,
    src: Seq<char>,
    q: int,
    c: ContractView,
)
    requires
        0 <= q < toks.len(),
    ensures
        c.supply matches Some((_, first)) ==> (toks[q].kind is Supply ==> parse_fields_from(toks, src, q, c)
            == Some(Err::<(ContractView, int), ErrorView>(redeclared("supply"@, first.line, toks, q, src)))),
        c.symbol matches Some((_, first)) ==> (toks[q].kind is Symbol ==> parse_fields_from(toks, src, q, c)
            == Some(Err::<(ContractView, int), ErrorView>(redeclared("symbol"@, first.line, toks, q, src)))),
        c.decimals matches Some((_, first)) ==> (toks[q].kind is Decimals ==> parse_fields_from(toks, src, q, c)
            == Some(Err::<(ContractView, int), ErrorView>(redeclared("decimals"@, first.line, toks, q, src)))),
        c.mintable matches Some(first) ==> (toks[q].kind is Mintable ==> parse_fields_from(toks, src, q, c)
            == Some(Err::<(ContractView, int), ErrorView>(redeclared("mintable"@, first.line, toks, q, src)))),
        c.burnable matches Some(first) ==> (toks[q].kind is Burnable ==> parse_fields_from(toks, src, q, c)
            == Some(Err::<(ContractView, int), ErrorView>(redeclared("burnable"@, first.line, toks, q, src)))),
        c.capped matches Some((_, first)) ==> (toks[q].kind is Capped ==> parse_fields_from(toks, src, q, c)
            == Some(Err::<(ContractView, int), ErrorView>(redeclared("capped"@, first.line, toks, q, src)))),
        c.owner matches Some((_, first)) ==> (toks[q].kind is Owner ==> parse_fields_from(toks, src, q, c)
            == Some(Err::<(ContractView, int), ErrorView>(redeclared("owner"@, first.line, toks, q, src)))),
{
}

/// Reading fields can only finish at a closing brace.
pub proof fn lemma_fields_end_at_close(
    toks: Seq<TokenView>,
    src: Seq<char>,
    q: int,
    c: ContractView,
)
    ensures
        parse_fields_from(toks, src, q, c) matches Some(Ok((_, e))) ==> q <= e < toks.len()
            && toks[e].kind is CloseBrace && forall|k: int|
            q <= k <= e ==> !(#[trigger] toks[k].kind is EOF),
    decreases toks.len() - q,
{
    if 0 <= q < toks.len() {
        let here = pos_of(toks[q]);
        match toks[q].kind {
            TokenKind::Supply => {
                if let Some(Ok(n)) = int_value_at(toks, src, q, "supply"@) {
                    lemma_fields_end_at_close(toks, src, q + 2, ContractView { supply: Some((n, here)), ..c });
                }
            },
            TokenKind::Symbol => {
                if let Some(Ok(v)) = string_value_at(toks, src, q) {
                    lemma_fields_end_at_close(toks, src, q + 2, ContractView { symbol: Some((v, here)), ..c });
                }
            },
            TokenKind::Decimals => {
                if let Some(Ok(n)) = int_value_at(toks, src, q, "decimals"@) {
                    lemma_fields_end_at_close(toks, src, q + 2, ContractView { decimals: Some((n, here)), ..c });
                }
            },
            TokenKind::Mintable => {
                lemma_fields_end_at_close(toks, src, q + 1, ContractView { mintable: Some(here), ..c });
            },
            TokenKind::Burnable => {
                lemma_fields_end_at_close(toks, src, q + 1, ContractView { burnable: Some(here), ..c });
            },
            TokenKind::Capped => {
                if let Some(Ok(n)) = int_value_at(toks, src, q, "capped"@) {
                    lemma_fields_end_at_close(toks, src, q + 2, ContractView { capped: Some((n, here)), ..c });
                }
            },
            TokenKind::Owner => {
                if let Some(Ok(b)) = address_value_at(toks, src, q) {
                    lemma_fields_end_at_close(toks, src, q + 2, ContractView { owner: Some((b, here)), ..c });
                }
            },
            _ => {},
        }
    }
}

pub open spec fn has_eof_from(toks: Seq<TokenView>, q: int) -> bool {
    exists|e: int| q <= e < toks.len() && (#[trigger] toks[e]).kind is EOF
}

proof fn lemma_fields_defined(toks: Seq<TokenView>, src: Seq<char>, q: int, c: ContractView)
    requires
        0 <= q,
        has_eof_from(toks, q),
    ensures
        parse_fields_from(toks, src, q, c) is Some,
    decreases toks.len() - q,
{
    let e = choose|e: int| q <= e < toks.len() && (#[trigger] toks[e]).kind is EOF;
    let here = pos_of(toks[q]);
    if q < e {
        assert(q + 1 < toks.len());
        if !(toks[q + 1].kind is EOF) {
            assert(q + 1 < e);
        }
        match toks[q].kind {
            TokenKind::Supply => {
                if let Some(Ok(n)) = int_value_at(toks, src, q, "supply"@) {
                    lemma_fields_defined(toks, src, q + 2, ContractView { supply: Some((n, here)), ..c });
                }
            },
            TokenKind::Symbol => {
                if let Some(Ok(v)) = string_value_at(toks, src, q) {
                    lemma_fields_defined(toks, src, q + 2, ContractView { symbol: Some((v, here)), ..c });
                }
            },
            TokenKind::Decimals => {
                if let Some(Ok(n)) = int_value_at(toks, src, q, "decimals"@) {
                    lemma_fields_defined(toks, src, q + 2, ContractView { decimals: Some((n, here)), ..c });
                }
            },
            TokenKind::Mintable => {
                lemma_fields_defined(toks, src, q + 1, ContractView { mintable: Some(here), ..c });
            },
            TokenKind::Burnable => {
                lemma_fields_defined(toks, src, q + 1, ContractView { burnable: Some(here), ..c });
            },
            TokenKind::Capped => {
                if let Some(Ok(n)) = int_value_at(toks, src, q, "capped"@) {
                    lemma_fields_defined(toks, src, q + 2, ContractView { capped: Some((n, here)), ..c });
                }
            },
            TokenKind::Owner => {
                if let Some(Ok(b)) = address_value_at(toks, src, q) {
                    lemma_fields_defined(toks, src, q + 2, ContractView { owner: Some((b, here)), ..c });
                }
            },
            _ => {},
        }
    }
}

/// The parser never reads past an end-of-file token: on tokens that contain
/// one at or after `p`, parsing from `p` has an outcome.
pub proof fn lemma_parse_defined(toks: Seq<TokenView>, src: Seq<char>, p: int)
    requires
        0 <= p,
        has_eof_from(toks, p),
    ensures
        parse_from(toks, src, p) is Some,
{
    let e = choose|e: int| p <= e < toks.len() && (#[trigger] toks[e]).kind is EOF;
    if toks[p].kind is Contract {
        assert(p < e);
        if toks[p + 1].kind is Identifier {
            assert(p + 1 < e);
            if toks[p + 2].kind is OpenBrace {
                assert(p + 2 < e);
                let c0 = empty_contract(toks[p + 1].kind->Identifier_0, pos_of(toks[p + 1]));
                assert(has_eof_from(toks, p + 3));
                lemma_fields_defined(toks, src, p + 3, c0);
                lemma_fields_end_at_close(toks, src, p + 3, c0);
                if let Some(Ok((c, q))) = parse_fields_from(toks, src, p + 3, c0) {
                    assert(q < e);
                }
            }
        }
    }
}

pub open spec fn parse_result_view(r: Result<ContractNode, CompileError>) -> Result<
    ContractView,
    ErrorView,
> {
    match r {
        Ok(c) => Ok(c@),
        Err(e) => Err(e@),
    }
}

// ---------------------------------------------------------------------------
// The parser
// ---------------------------------------------------------------------------

pub struct Parser {
    tokens: Vec<LexToken>,
    pos: usize,
    source: String,
}

/// What `expect` looks for.
enum Expected {
    Contract,
    OpenBrace,
    CloseBrace,
    Eof,
}

impl Parser {
    /// The tokens being read.
    pub closed spec fn tokens(&self) -> Seq<TokenView> {
        tokens_view(self.tokens@)
    }

    /// The source text the tokens came from.
    pub closed spec fn source(&self) -> Seq<char> {
        self.source@
    }

    /// The index of the next token to read.
    pub closed spec fn position(&self) -> int {
        self.pos as int
    }

    pub fn new(tokens: Vec<LexToken>, source: &str) -> (p: Parser)
        ensures
            p.tokens() == tokens_view(tokens@),
            p.source() == source@,
            p.position() == 0,
    {
        Parser { tokens, pos: 0, source: String::from_str(source) }
    }

    /// Parses `contract NAME { fields }` followed by the end of the input.
    pub fn parse(&mut self) -> (r: Result<ContractNode, CompileError>)
        requires
            parse_from(old(self).tokens(), old(self).source(), old(self).position()) is Some,
        ensures
            final(self).tokens() == old(self).tokens(),
            final(self).source() == old(self).source(),
            parse_from(old(self).tokens(), old(self).source(), old(self).position()) == Some(
                parse_result_view(r),
            ),
    {
        let ghost toks = self.tokens();
        let ghost src = self.source();
        let ghost p = self.pos as int;
        self.expect(Expected::Contract)?;
        let (name, name_position) = self.expect_identifier()?;
        self.expect(Expected::OpenBrace)?;
        let mut contract = ContractNode {
            name,
            name_position,
            symbol: None,
            decimals: None,
            supply: None,
            mintable: None,
            burnable: None,
            capped: None,
            owner: None,
        };
        proof {
            assert(contract@ == empty_contract(toks[p + 1].kind->Identifier_0, pos_of(toks[p + 1])));
        }
        proof {
            lemma_fields_end_at_close(toks, src, p + 3, contract@);
        }
        self.parse_fields(&mut contract)?;
        self.expect(Expected::CloseBrace)?;
        self.expect(Expected::Eof)?;
        Ok(contract)
    }

    fn parse_fields(&mut self, contract: &mut ContractNode) -> (r: Result<(), CompileError>)
        requires
            parse_fields_from(
                old(self).tokens(),
                old(self).source(),
                old(self).position(),
                old(contract)@,
            ) is Some,
        ensures
            final(self).tokens() == old(self).tokens(),
            final(self).source() == old(self).source(),
            parse_fields_from(
                old(self).tokens(),
                old(self).source(),
                old(self).position(),
                old(contract)@,
            ) == match r {
                Ok(()) => Some(Ok((final(contract)@, final(self).position()))),
                Err(e) => Some(Err(e@)),
            },
            r is Err ==> final(contract)@ == fields_at_failure(
                old(self).tokens(),
                old(self).source(),
                old(self).position(),
                old(contract)@,
            ),
    {
        let ghost toks = self.tokens();
        let ghost src = self.source();
        let ghost outcome = parse_fields_from(toks, src, self.pos as int, contract@);
        loop
            invariant
                self.tokens() == toks,
                self.source() == src,
                toks == old(self).tokens(),
                src == old(self).source(),
                toks.len() == self.tokens@.len(),
                outcome is Some,
                outcome == parse_fields_from(toks, src, self.pos as int, contract@),
                outcome == parse_fields_from(
                    old(self).tokens(),
                    old(self).source(),
                    old(self).position(),
                    old(contract)@,
                ),
                fields_at_failure(toks, src, self.pos as int, contract@) == fields_at_failure(
                    old(self).tokens(),
                    old(self).source(),
                    old(self).position(),
                    old(contract)@,
                ),
            decreases toks.len() - self.pos,
        {
            let ghost q = self.pos as int;
            let ghost c = contract@;
            assert(self.tokens@[q]@ == toks[q]);
            match &self.tokens[self.pos].token_type {
                LexTokenType::CloseBrace => {
                    return Ok(());
                },
                LexTokenType::Supply => {
                    if let Some(existing) = &contract.supply {
                        return Err(self.duplicate("supply", existing.position.line));
                    }
                    let position = self.current_position();
                    self.advance();
                    let value = self.read_int_value("supply")?;
                    contract.supply = Some(IntField { value, position });
                },
                LexTokenType::Symbol => {
                    if let Some(existing) = &contract.symbol {
                        return Err(self.duplicate("symbol", existing.position.line));
                    }
                    let position = self.current_position();
                    self.advance();
                    let value = self.read_string_value()?;
                    contract.symbol = Some(StringField { value, position });
                },
                LexTokenType::Decimals => {
                    if let Some(existing) = &contract.decimals {
                        return Err(self.duplicate("decimals", existing.position.line));
                    }
                    let position = self.current_position();
                    self.advance();
                    let value = self.read_int_value("decimals")?;
                    contract.decimals = Some(IntField { value, position });
                },
                LexTokenType::Mintable => {
                    if let Some(existing) = &contract.mintable {
                        return Err(self.duplicate("mintable", existing.position.line));
                    }
                    contract.mintable = Some(FlagField { position: self.current_position() });
                    self.advance();
                },
                LexTokenType::Burnable => {
                    if let Some(existing) = &contract.burnable {
                        return Err(self.duplicate("burnable", existing.position.line));
                    }
                    contract.burnable = Some(FlagField { position: self.current_position() });
                    self.advance();
                },
                LexTokenType::Capped => {
                    if let Some(existing) = &contract.capped {
                        return Err(self.duplicate("capped", existing.position.line));
                    }
                    let position = self.current_position();
                    self.advance();
                    let value = self.read_int_value("capped")?;
                    contract.capped = Some(IntField { value, position });
                },
                LexTokenType::Owner => {
                    if let Some(existing) = &contract.owner {
                        return Err(self.duplicate("owner", existing.position.line));
                    }
                    let position = self.current_position();
                    self.advance();
                    let value = self.read_address_value()?;
                    contract.owner = Some(AddressField { value, position });
                },
                LexTokenType::Identifier(word) => {
                    let msg = concat3("Unknown field '", word.as_str(), "'");
                    let err = self.error_here(msg.as_str());
                    let keywords = LexTokenType::field_keywords();
                    let suggestion = suggest_closest(word.as_str(), keywords.as_slice(), 3);
                    match suggestion {
                        Some(s) => {
                            let hint = concat3("Did you mean '", s.as_str(), "'?");
                            return Err(err.with_suggestion(hint.as_str()));
                        },
                        None => {
                            return Err(err);
                        },
                    }
                },
                LexTokenType::EOF => {
                    return Err(self.error_here("Expected '}' to close contract block"));
                },
                other => {
                    let desc = describe_token(other);
                    let msg = concat2("Unexpected token ", desc.as_str());
                    return Err(self.error_here(msg.as_str()));
                },
            }
        }
    }

    fn source_line(&self, line: usize) -> (r: String)
        ensures
            r@ == source_line_of(self.source@, line as nat),
    {
        get_source_line(self.source.as_str(), line)
    }

    /// A parse error at the current token.
    fn error_here(&self, message: &str) -> (e: CompileError)
        requires
            self.pos < self.tokens@.len(),
        ensures
            e@ == parse_error_at(message@, self.tokens(), self.pos as int, self.source()),
    {
        let tok = &self.tokens[self.pos];
        let src = self.source_line(tok.line);
        CompileError::parse(message, tok.line, tok.col, src.as_str())
    }

    fn duplicate(&self, name: &str, first_line: usize) -> (e: CompileError)
        requires
            self.pos < self.tokens@.len(),
        ensures
            e@ == duplicate_error(
                name@,
                first_line as nat,
                self.tokens(),
                self.pos as int,
                self.source(),
            ),
    {
        let line_str = decimal_string(first_line as u64);
        let mut msg = String::from_str("Duplicate '");
        msg.append(name);
        msg.append("' declaration — already set on line ");
        msg.append(line_str.as_str());
        self.error_here(msg.as_str())
    }

    fn current_position(&self) -> (p: Position)
        requires
            self.pos < self.tokens@.len(),
        ensures
            crate::ast::pos_view(p) == pos_of(self.tokens()[self.pos as int]),
    {
        let tok = &self.tokens[self.pos];
        Position { line: tok.line, col: tok.col }
    }

    fn advance(&mut self)
        requires
            old(self).pos < old(self).tokens.len(),
        ensures
            final(self).tokens == old(self).tokens,
            final(self).source == old(self).source,
            final(self).pos == old(self).pos + 1,
    {
        self.pos = self.pos + 1;
    }

    /// Reads the number that follows the keyword of field `name`.
    fn read_int_value(&mut self, name: &str) -> (r: Result<u64, CompileError>)
        requires
            old(self).pos >= 1,
            int_value_at(old(self).tokens(), old(self).source(), old(self).pos - 1, name@) is Some,
        ensures
            final(self).tokens == old(self).tokens,
            final(self).source == old(self).source,
            int_value_at(old(self).tokens(), old(self).source(), old(self).pos - 1, name@)
                == Some(
                match r {
                    Ok(n) => Ok(n),
                    Err(e) => Err(e@),
                },
            ),
            r is Ok ==> final(self).pos == old(self).pos + 1,
    {
        assert(self.tokens@[self.pos as int]@ == self.tokens()[self.pos as int]);
        match &self.tokens[self.pos].token_type {
            LexTokenType::IntegerLit(val) => {
                match parse_u64(val.as_str()) {
                    Some(n) => {
                        self.advance();
                        Ok(n)
                    },
                    None => {
                        let msg1 = concat3(name, " value '", val.as_str());
                        let msg = concat3("Invalid ", msg1.as_str(), "'");
                        assert(msg@ =~= "Invalid "@ + name@ + " value '"@ + val@ + "'"@);
                        Err(self.error_here(msg.as_str()))
                    },
                }
            },
            other => {
                let desc = describe_token(other);
                let msg = concat3("'", name, "' expects a number, got ");
                let msg = concat2(msg.as_str(), desc.as_str());
                Err(self.error_here(msg.as_str()))
            },
        }
    }

    fn read_string_value(&mut self) -> (r: Result<String, CompileError>)
        requires
            old(self).pos >= 1,
            string_value_at(old(self).tokens(), old(self).source(), old(self).pos - 1) is Some,
        ensures
            final(self).tokens == old(self).tokens,
            final(self).source == old(self).source,
            string_value_at(old(self).tokens(), old(self).source(), old(self).pos - 1) == Some(
                match r {
                    Ok(v) => Ok(v@),
                    Err(e) => Err(e@),
                },
            ),
            r is Ok ==> final(self).pos == old(self).pos + 1,
    {
        assert(self.tokens@[self.pos as int]@ == self.tokens()[self.pos as int]);
        match &self.tokens[self.pos].token_type {
            LexTokenType::StringLit(val) => {
                let value = val.clone();
                self.advance();
                Ok(value)
            },
            other => {
                let desc = describe_token(other);
                let msg = concat2("'symbol' expects a string, got ", desc.as_str());
                Err(self.error_here(msg.as_str()))
            },
        }
    }

    fn read_address_value(&mut self) -> (r: Result<[u8; 20], CompileError>)
        requires
            old(self).pos >= 1,
            address_value_at(old(self).tokens(), old(self).source(), old(self).pos - 1) is Some,
        ensures
            final(self).tokens == old(self).tokens,
            final(self).source == old(self).source,
            address_value_at(old(self).tokens(), old(self).source(), old(self).pos - 1) == Some(
                match r {
                    Ok(v) => Ok(v@),
                    Err(e) => Err(e@),
                },
            ),
            r is Ok ==> final(self).pos == old(self).pos + 1,
    {
        assert(self.tokens@[self.pos as int]@ == self.tokens()[self.pos as int]);
        match &self.tokens[self.pos].token_type {
            LexTokenType::AddressLit { bytes, .. } => {
                let value = *bytes;
                self.advance();
                Ok(value)
            },
            other => {
                let desc = describe_token(other);
                let msg = concat2("'owner' expects an address, got ", desc.as_str());
                Err(self.error_here(msg.as_str()))
            },
        }
    }

    fn expect(&mut self, expected: Expected) -> (r: Result<(), CompileError>)
        requires
            old(self).pos < old(self).tokens@.len(),
        ensures
            final(self).tokens == old(self).tokens,
            final(self).source == old(self).source,
            ({
                let k = old(self).tokens()[old(self).pos as int].kind;
                let ok = match expected {
                    Expected::Contract => k is Contract,
                    Expected::OpenBrace => k is OpenBrace,
                    Expected::CloseBrace => k is CloseBrace,
                    Expected::Eof => k is EOF,
                };
                let msg = match expected {
                    Expected::Contract => "Expected 'contract' keyword"@,
                    Expected::OpenBrace => "Expected '{' after contract name"@,
                    Expected::CloseBrace => "Expected '}' to close contract block"@,
                    Expected::Eof => "Unexpected content after contract block"@,
                };
                &&& ok ==> r is Ok && final(self).pos == old(self).pos + 1
                &&& !ok ==> final(self).pos == old(self).pos
                &&& !ok ==> (r matches Err(e) && e@ == parse_error_at(
                    msg,
                    old(self).tokens(),
                    old(self).pos as int,
                    old(self).source(),
                ))
            }),
    {
        assert(self.tokens@[self.pos as int]@ == self.tokens()[self.pos as int]);
        let matches = match (&expected, &self.tokens[self.pos].token_type) {
            (Expected::Contract, LexTokenType::Contract) => true,
            (Expected::OpenBrace, LexTokenType::OpenBrace) => true,
            (Expected::CloseBrace, LexTokenType::CloseBrace) => true,
            (Expected::Eof, LexTokenType::EOF) => true,
            _ => false,
        };
        if !matches {
            let message = match expected {
                Expected::Contract => "Expected 'contract' keyword",
                Expected::OpenBrace => "Expected '{' after contract name",
                Expected::CloseBrace => "Expected '}' to close contract block",
                Expected::Eof => "Unexpected content after contract block",
            };
            return Err(self.error_here(message));
        }
        self.advance();
        Ok(())
    }

    fn expect_identifier(&mut self) -> (r: Result<(String, Position), CompileError>)
        requires
            old(self).pos < old(self).tokens@.len(),
        ensures
            final(self).tokens == old(self).tokens,
            final(self).source == old(self).source,
            ({
                let t = old(self).tokens()[old(self).pos as int];
                &&& t.kind is Identifier ==> (r matches Ok((name, p)) && name@
                    == t.kind->Identifier_0 && crate::ast::pos_view(p) == pos_of(t)
                    && final(self).pos == old(self).pos + 1)
                &&& !(t.kind is Identifier) ==> final(self).pos == old(self).pos
                &&& !(t.kind is Identifier) ==> (r matches Err(e) && e@ == parse_error_at(
                    "Missing contract name after 'contract'"@,
                    old(self).tokens(),
                    old(self).pos as int,
                    old(self).source(),
                ))
            }),
    {
        assert(self.tokens@[self.pos as int]@ == self.tokens()[self.pos as int]);
        match &self.tokens[self.pos].token_type {
            LexTokenType::Identifier(s) => {
                let name = s.clone();
                let p = self.current_position();
                self.advance();
                Ok((name, p))
            },
            _ => Err(self.error_here("Missing contract name after 'contract'")),
        }
    }
}

/// How an error message names a token.
fn describe_token(token: &LexTokenType) -> (s: String)
    ensures
        s@ == describe(token@),
{
    match token {
        LexTokenType::StringLit(s) => concat3("string \"", s.as_str(), "\""),
        LexTokenType::IntegerLit(s) => concat2("number ", s.as_str()),
        LexTokenType::AddressLit { raw, .. } => concat2("address ", raw.as_str()),
        LexTokenType::Identifier(s) => concat3("identifier '", s.as_str(), "'"),
        LexTokenType::OpenBrace => String::from_str("'{'"),
        LexTokenType::CloseBrace => String::from_str("'}'"),
        LexTokenType::Contract => String::from_str("keyword 'contract'"),
        LexTokenType::Symbol => String::from_str("keyword 'symbol'"),
        LexTokenType::Decimals => String::from_str("keyword 'decimals'"),
        LexTokenType::Supply => String::from_str("keyword 'supply'"),
        LexTokenType::Mintable => String::from_str("keyword 'mintable'"),
        LexTokenType::Burnable => String::from_str("keyword 'burnable'"),
        LexTokenType::Capped => String::from_str("keyword 'capped'"),
        LexTokenType::Owner => String::from_str("keyword 'owner'"),
        LexTokenType::EOF => String::from_str("end of file"),
    }
}

} // verus!
