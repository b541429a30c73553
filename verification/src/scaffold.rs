//! The rules of the `init` wizard: what it accepts and the `.tc` text it writes.
use vstd::prelude::*;
use vstd::string::*;
use crate::errors::{all_ascii, ascii_uppercase, lowercase, to_lowercase, ErrorView};
use crate::text::{chars_of, decimal, decimal_string, is_alnum, is_alpha, is_digit, string_from_chars};
use crate::lex_tokens::{TokenKind, TokenView};
use crate::lexer::{
    keyword_kind, lemma_lex_brace, lemma_lex_number, lemma_lex_spaces, lemma_lex_string,
    lemma_lex_word, lemma_prepend_prepend, lex, lex_from, prepend, token_at,
};
use crate::parser::{empty_contract, parse_fields_from, parse_from, pos_of};
use crate::analyzer::{analysis_errors, contract_is_valid, lemma_analysis_accepts_valid};
use crate::ast::ContractView;

verus! {

/// What `char::is_alphabetic` returns (the Unicode `Alphabetic` property).
pub uninterp spec fn unicode_alphabetic(c: char) -> bool;

/// What `char::is_alphanumeric` returns (Unicode `Alphabetic` or `Numeric`).
pub uninterp spec fn unicode_alphanumeric(c: char) -> bool;

/// What `str::to_uppercase` returns for a string with these characters.
pub uninterp spec fn uppercase(s: Seq<char>) -> Seq<char>;

/// `char::is_alphabetic`; the Unicode tables behind it are not stated.
#[verifier::external_body]
fn is_alphabetic(c: char) -> (r: bool)
    ensures
        r == unicode_alphabetic(c),
{
    c.is_alphabetic()
}

/// `char::is_alphanumeric`; the Unicode tables behind it are not stated.
#[verifier::external_body]
fn is_alphanumeric(c: char) -> (r: bool)
    ensures
        r == unicode_alphanumeric(c),
{
    c.is_alphanumeric()
}

/// `str::to_uppercase`: the Unicode upper-case mapping of `s`. For ASCII
/// text it is ASCII upper-casing (the Unicode mapping sends `a`..`z` to
/// `A`..`Z` and keeps every other ASCII character); beyond ASCII the mapping
/// is left unstated.
#[verifier::external_body]
fn to_uppercase(s: &str) -> (r: String)
    ensures
        r@ == uppercase(s@),
        all_ascii(s@) ==> r@ == ascii_uppercase(s@),
{
    s.to_uppercase()
}

/// Why a contract name is refused, if it is.
pub open spec fn name_problem(name: Seq<char>) -> Option<Seq<char>> {
    if name.len() == 0 {
        Some("Contract name cannot be empty"@)
    } else if !unicode_alphabetic(name[0]) {
        Some("Must start with a letter"@)
    } else if !(forall|i: int|
        0 <= i < name.len() ==> unicode_alphanumeric(#[trigger] name[i]) || name[i] == '_') {
        Some("Only letters, numbers, and underscores allowed"@)
    } else {
        None
    }
}

pub open spec fn check_view(r: Result<(), &'static str>) -> Option<Seq<char>> {
    match r {
        Ok(()) => None,
        Err(m) => Some(m@),
    }
}

/// A contract name: not empty, starting with a letter, then letters, digits
/// and underscores.
pub fn validate_contract_name(name: &str) -> (r: Result<(), &'static str>)
    ensures
        check_view(r) == name_problem(name@),
{
    let v = chars_of(name);
    if v.len() == 0 {
        return Err("Contract name cannot be empty");
    }
    if !is_alphabetic(v[0]) {
        return Err("Must start with a letter");
    }
    let mut i: usize = 0;
    while i < v.len()
        invariant
            v@ == name@,
            v@.len() > 0,
            unicode_alphabetic(v@[0]),
            i <= v@.len(),
            forall|k: int| 0 <= k < i ==> unicode_alphanumeric(#[trigger] v@[k]) || v@[k] == '_',
        decreases v@.len() - i,
    {
        if !(is_alphanumeric(v[i]) || v[i] == '_') {
            assert(!(unicode_alphanumeric(name@[i as int]) || name@[i as int] == '_'));
            return Err("Only letters, numbers, and underscores allowed");
        }
        i = i + 1;
    }
    Ok(())
}

/// Decimals must be between 0 and 77.
pub fn validate_decimals(decimals: u64) -> (r: Result<(), &'static str>)
    ensures
        check_view(r) == (if decimals <= 77 {
            None
        } else {
            Some("Decimals must be between 0 and 77"@)
        }),
{
    if decimals <= 77 {
        Ok(())
    } else {
        Err("Decimals must be between 0 and 77")
    }
}

/// The supply must be positive.
pub fn validate_supply(supply: u64) -> (r: Result<(), &'static str>)
    ensures
        check_view(r) == (if supply > 0 {
            None
        } else {
            Some("Supply must be greater than 0"@)
        }),
{
    if supply > 0 {
        Ok(())
    } else {
        Err("Supply must be greater than 0")
    }
}

/// A cap must be at least the supply.
pub fn validate_cap(cap: u64, supply: u64) -> (r: Result<(), &'static str>)
    ensures
        check_view(r) == (if cap >= supply {
            None
        } else {
            Some("Cap must be greater than or equal to supply"@)
        }),
{
    if cap >= supply {
        Ok(())
    } else {
        Err("Cap must be greater than or equal to supply")
    }
}

/// The default symbol: the first three characters of the name, upper-cased.
pub open spec fn default_symbol_of(name: Seq<char>) -> Seq<char> {
    uppercase(if name.len() <= 3 { name } else { name.take(3) })
}

pub fn default_symbol(name: &str) -> (s: String)
    ensures
        s@ == default_symbol_of(name@),
        all_ascii(name@) ==> s@ == ascii_uppercase(
            if name@.len() <= 3 {
                name@
            } else {
                name@.take(3)
            },
        ),
{
    let v = chars_of(name);
    let mut first: Vec<char> = Vec::new();
    let mut i: usize = 0;
    while i < v.len() && i < 3
        invariant
            v@ == name@,
            i <= v@.len(),
            i <= 3,
            first@ == v@.take(i as int),
        decreases 3 - i,
    {
        first.push(v[i]);
        i = i + 1;
        assert(first@ =~= v@.take(i as int));
    }
    assert(first@ =~= (if name@.len() <= 3 { name@ } else { name@.take(3) }));
    let prefix = string_from_chars(first.as_slice());
    to_uppercase(prefix.as_str())
}

/// The `.tc` text the wizard writes: the head with the name, symbol,
/// decimals and supply, then the flag lines and the closing brace.
pub open spec fn contract_source(
    name: Seq<char>,
    symbol: Seq<char>,
    decimals: u64,
    supply: u64,
    mintable: bool,
    burnable: bool,
    capped: Option<u64>,
) -> Seq<char> {
    wizard_head(name, symbol, decimals, supply) + wizard_tail(mintable, burnable, capped)
}

/// The head of the wizard's text: up to the supply's digits.
pub open spec fn wizard_head(name: Seq<char>, symbol: Seq<char>, decimals: u64, supply: u64) -> Seq<
    char,
> {
    "contract "@ + name + " {\n"@ + "    symbol \""@ + symbol + "\"\n"@ + "    decimals "@ + decimal(
        decimals as nat,
    ) + "\n"@ + "    supply "@ + decimal(supply as nat)
}

pub open spec fn mintable_line(mintable: bool) -> Seq<char> {
    if mintable {
        "    mintable\n"@
    } else {
        Seq::empty()
    }
}

pub open spec fn burnable_line(burnable: bool) -> Seq<char> {
    if burnable {
        "    burnable\n"@
    } else {
        Seq::empty()
    }
}

pub open spec fn capped_line(capped: Option<u64>) -> Seq<char> {
    match capped {
        Some(cap) => "    capped "@ + decimal(cap as nat) + "\n"@,
        None => Seq::empty(),
    }
}

/// The rest of the wizard's text: the end of the supply line, the flag
/// lines, and the closing brace.
pub open spec fn wizard_tail(mintable: bool, burnable: bool, capped: Option<u64>) -> Seq<char> {
    "\n"@ + (mintable_line(mintable) + (burnable_line(burnable) + (capped_line(capped) + "}\n"@)))
}

pub fn render_contract_source(
    name: &str,
    symbol: &str,
    decimals: u64,
    supply: u64,
    mintable: bool,
    burnable: bool,
    capped: Option<u64>,
) -> (s: String)
    ensures
        s@ == contract_source(name@, symbol@, decimals, supply, mintable, burnable, capped),
{
    let mut out = String::from_str("contract ");
    out.append(name);
    out.append(" {\n");
    out.append("    symbol \"");
    out.append(symbol);
    out.append("\"\n");
    let d = decimal_string(decimals);
    out.append("    decimals ");
    out.append(d.as_str());
    out.append("\n");
    let s = decimal_string(supply);
    out.append("    supply ");
    out.append(s.as_str());
    out.append("\n");
    let ghost base = out@;
    if mintable {
        out.append("    mintable\n");
    }
    let ghost after_mint = out@;
    if burnable {
        out.append("    burnable\n");
    }
    let ghost after_burn = out@;
    match capped {
        Some(cap) => {
            let c = decimal_string(cap);
            out.append("    capped ");
            out.append(c.as_str());
            out.append("\n");
        },
        None => {},
    }
    let ghost after_cap = out@;
    out.append("}\n");
    proof {
        let h = wizard_head(name@, symbol@, decimals, supply);
        assert(base =~= h + "\n"@);
        assert(after_mint =~= base + mintable_line(mintable));
        assert(after_burn =~= base + mintable_line(mintable) + burnable_line(burnable));
        assert(after_cap =~= base + mintable_line(mintable) + burnable_line(burnable)
            + capped_line(capped));
        assert(out@ =~= h + wizard_tail(mintable, burnable, capped));
    }
    out
}

/// The file the wizard writes: the lower-cased name with the `.tc` extension.
pub fn init_file_name(name: &str) -> (s: String)
    ensures
        s@ == lowercase(name@) + ".tc"@,
{
    let mut s = to_lowercase(name);
    s.append(".tc");
    s
}


// ---------------------------------------------------------------------------
// What the wizard writes checks clean
// ---------------------------------------------------------------------------

/// A name the lexer reads as one identifier: ASCII letters, digits and
/// underscores, not starting with a digit, and not a keyword.
pub open spec fn is_plain_name(name: Seq<char>) -> bool {
    &&& name.len() > 0
    &&& is_alpha(name[0]) || name[0] == '_'
    &&& forall|k: int| 0 <= k < name.len() ==> is_alnum(#[trigger] name[k]) || name[k] == '_'
    &&& keyword_kind(name) is Identifier
}

/// A symbol that fits in a string literal: no quote and no line feed.
pub open spec fn is_plain_symbol(symbol: Seq<char>) -> bool {
    forall|k: int| 0 <= k < symbol.len() ==> #[trigger] symbol[k] != '"' && symbol[k] != '\n'
}

/// The kinds of a sequence of tokens.
pub open spec fn kinds(ts: Seq<TokenView>) -> Seq<TokenKind> {
    ts.map_values(|t: TokenView| t.kind)
}

/// The kinds of the tokens of the wizard's head.
pub open spec fn head_kinds(name: Seq<char>, symbol: Seq<char>, decimals: u64, supply: u64) -> Seq<
    TokenKind,
> {
    seq![
        TokenKind::Contract,
        TokenKind::Identifier(name),
        TokenKind::OpenBrace,
        TokenKind::Symbol,
        TokenKind::StringLit(symbol),
        TokenKind::Decimals,
        TokenKind::IntegerLit(decimal(decimals as nat)),
        TokenKind::Supply,
        TokenKind::IntegerLit(decimal(supply as nat)),
    ]
}

/// The head of the wizard's text followed by a tail that starts a new line.
pub open spec fn head_text(
    name: Seq<char>,
    symbol: Seq<char>,
    decimals: u64,
    supply: u64,
    tail: Seq<char>,
) -> Seq<char> {
    wizard_head(name, symbol, decimals, supply) + tail
}

/// What the head lemmas need: a plain name and symbol, and a tail that
/// starts with a line feed.
pub open spec fn head_ok(name: Seq<char>, symbol: Seq<char>, tail: Seq<char>) -> bool {
    &&& is_plain_name(name)
    &&& is_plain_symbol(symbol)
    &&& tail.len() > 0
    &&& tail[0] == '\n'
}

/// The head starts with the `contract` keyword.
#[verifier::spinoff_prover]
#[verifier::rlimit(40)]
proof fn lemma_head_contract(
    name: Seq<char>,
    symbol: Seq<char>,
    decimals: u64,
    supply: u64,
    tail: Seq<char>,
)
    requires
        head_ok(name, symbol, tail),
    ensures
        ({
            let s = head_text(name, symbol, decimals, supply, tail);
            lex_from(s, 0) == prepend(seq![token_at(TokenKind::Contract, s, 0)], lex_from(s, 9))
        }),
{
    reveal_strlit("contract ");
    reveal_strlit("contract");
    let s = head_text(name, symbol, decimals, supply, tail);
    assert(forall|k: int| 0 <= k < 9 ==> s[k] == "contract "@[k]);
    assert(s.subrange(0, 8) =~= "contract"@);
    lemma_lex_word(s, 0, 8);
    lemma_lex_spaces(s, 8, 9);
}

/// Then the name and the opening brace.
#[verifier::spinoff_prover]
#[verifier::rlimit(40)]
proof fn lemma_head_name(
    name: Seq<char>,
    symbol: Seq<char>,
    decimals: u64,
    supply: u64,
    tail: Seq<char>,
)
    requires
        head_ok(name, symbol, tail),
    ensures
        ({
            let s = head_text(name, symbol, decimals, supply, tail);
            let n = name.len() as int;
            lex_from(s, 9) == prepend(
                seq![
                    token_at(TokenKind::Identifier(name), s, 9),
                    token_at(TokenKind::OpenBrace, s, 10 + n),
                ],
                lex_from(s, 16 + n),
            )
        }),
{
    reveal_strlit("contract ");
    reveal_strlit(" {\n");
    reveal_strlit("    symbol \"");
    reveal_strlit("\"\n");
    reveal_strlit("    decimals ");
    reveal_strlit("\n");
    reveal_strlit("    supply ");
    let s = head_text(name, symbol, decimals, supply, tail);
    let n = name.len() as int;
    let t1 = token_at(TokenKind::Identifier(name), s, 9);
    let t2 = token_at(TokenKind::OpenBrace, s, 10 + n);
    assert(forall|k: int| 0 <= k < n ==> s[9 + k] == name[k]);
    assert(forall|k: int| 0 <= k < 15 ==> s[9 + n + k] == (" {\n"@ + "    symbol \""@)[k]);
    assert(s.subrange(9, 9 + n) =~= name);
    assert forall|k: int| 9 <= k < 9 + n implies is_alnum(#[trigger] s[k]) || s[k] == '_' by {
        assert(s[k] == name[k - 9]);
    }
    lemma_lex_word(s, 9, 9 + n);
    lemma_lex_spaces(s, 9 + n, 10 + n);
    lemma_lex_brace(s, 10 + n);
    lemma_lex_spaces(s, 11 + n, 16 + n);
    lemma_prepend_prepend(seq![t1], seq![t2], lex_from(s, 16 + n));
    assert(seq![t1] + seq![t2] =~= seq![t1, t2]);
}

/// Then the `symbol` line.
#[verifier::spinoff_prover]
#[verifier::rlimit(40)]
proof fn lemma_head_symbol(
    name: Seq<char>,
    symbol: Seq<char>,
    decimals: u64,
    supply: u64,
    tail: Seq<char>,
)
    requires
        head_ok(name, symbol, tail),
    ensures
        ({
            let s = head_text(name, symbol, decimals, supply, tail);
            let n = name.len() as int;
            let sl = symbol.len() as int;
            lex_from(s, 16 + n) == prepend(
                seq![
                    token_at(TokenKind::Symbol, s, 16 + n),
                    token_at(TokenKind::StringLit(symbol), s, 23 + n),
                ],
                lex_from(s, 30 + n + sl),
            )
        }),
{
    reveal_strlit("contract ");
    reveal_strlit(" {\n");
    reveal_strlit("    symbol \"");
    reveal_strlit("\"\n");
    reveal_strlit("    decimals ");
    reveal_strlit("\n");
    reveal_strlit("    supply ");
    reveal_strlit("contract");
    reveal_strlit("symbol");
    reveal_strlit("decimals");
    reveal_strlit("supply");
    let s = head_text(name, symbol, decimals, supply, tail);
    let n = name.len() as int;
    let sl = symbol.len() as int;
    let t3 = token_at(TokenKind::Symbol, s, 16 + n);
    let t4 = token_at(TokenKind::StringLit(symbol), s, 23 + n);
    assert(forall|k: int| 0 <= k < 15 ==> s[9 + n + k] == (" {\n"@ + "    symbol \""@)[k]);
    assert(s.subrange(16 + n, 22 + n) =~= "symbol"@);
    lemma_lex_word(s, 16 + n, 22 + n);
    lemma_lex_spaces(s, 22 + n, 23 + n);
    assert(forall|k: int| 0 <= k < sl ==> s[24 + n + k] == symbol[k]);
    assert(forall|k: int| 0 <= k < 15 ==> s[24 + n + sl + k] == ("\"\n"@ + "    decimals "@)[k]);
    assert forall|k: int| 23 + n < k < 24 + n + sl implies #[trigger] s[k] != '"' && s[k] != '\n' by {
        assert(s[k] == symbol[k - 24 - n]);
    }
    assert(s.subrange(24 + n, 24 + n + sl) =~= symbol);
    lemma_lex_string(s, 23 + n, 24 + n + sl);
    lemma_lex_spaces(s, 25 + n + sl, 30 + n + sl);
    lemma_prepend_prepend(seq![t3], seq![t4], lex_from(s, 30 + n + sl));
    assert(seq![t3] + seq![t4] =~= seq![t3, t4]);
}

/// Then the `decimals` line.
#[verifier::spinoff_prover]
#[verifier::rlimit(40)]
proof fn lemma_head_decimals(
    name: Seq<char>,
    symbol: Seq<char>,
    decimals: u64,
    supply: u64,
    tail: Seq<char>,
)
    requires
        head_ok(name, symbol, tail),
    ensures
        ({
            let s = head_text(name, symbol, decimals, supply, tail);
            let o = (39 + name.len() + symbol.len()) as int;
            let d = decimal(decimals as nat).len() as int;
            lex_from(s, (30 + name.len() + symbol.len()) as int) == prepend(
                seq![
                    token_at(TokenKind::Decimals, s, (30 + name.len() + symbol.len()) as int),
                    token_at(TokenKind::IntegerLit(decimal(decimals as nat)), s, o),
                ],
                lex_from(s, o + d + 5),
            )
        }),
{
    reveal_strlit("contract ");
    reveal_strlit(" {\n");
    reveal_strlit("    symbol \"");
    reveal_strlit("\"\n");
    reveal_strlit("    decimals ");
    reveal_strlit("\n");
    reveal_strlit("    supply ");
    reveal_strlit("contract");
    reveal_strlit("symbol");
    reveal_strlit("decimals");
    reveal_strlit("supply");
    crate::text::lemma_decimal_digits(decimals as nat);
    assert("decimals"@[0] != "contract"@[0]);
    let s = head_text(name, symbol, decimals, supply, tail);
    let dd = decimal(decimals as nat);
    let n = name.len() as int;
    let sl = symbol.len() as int;
    let d = dd.len() as int;
    let o = 39 + n + sl;
    let t5 = token_at(TokenKind::Decimals, s, 30 + n + sl);
    let t6 = token_at(TokenKind::IntegerLit(dd), s, o);
    assert(forall|k: int| 0 <= k < 15 ==> s[24 + n + sl + k] == ("\"\n"@ + "    decimals "@)[k]);
    assert(s.subrange(30 + n + sl, 38 + n + sl) =~= "decimals"@);
    lemma_lex_word(s, 30 + n + sl, 38 + n + sl);
    lemma_lex_spaces(s, 38 + n + sl, 39 + n + sl);
    assert(forall|k: int| 0 <= k < d ==> s[o + k] == dd[k]);
    assert(forall|k: int| 0 <= k < 12 ==> s[o + d + k] == ("\n"@ + "    supply "@)[k]);
    assert forall|k: int| o <= k < o + d implies is_digit(#[trigger] s[k]) by {
        assert(s[k] == dd[k - o]);
    }
    assert(s.subrange(o, o + d) =~= dd);
    lemma_lex_number(s, o, o + d);
    lemma_lex_spaces(s, o + d, o + d + 5);
    lemma_prepend_prepend(seq![t5], seq![t6], lex_from(s, o + d + 5));
    assert(seq![t5] + seq![t6] =~= seq![t5, t6]);
}

/// Then the `supply` keyword and its digits, up to the end of the head.
#[verifier::spinoff_prover]
#[verifier::rlimit(40)]
proof fn lemma_head_supply(
    name: Seq<char>,
    symbol: Seq<char>,
    decimals: u64,
    supply: u64,
    tail: Seq<char>,
)
    requires
        head_ok(name, symbol, tail),
    ensures
        ({
            let s = head_text(name, symbol, decimals, supply, tail);
            let o = (39 + name.len() + symbol.len() + decimal(decimals as nat).len()) as int;
            lex_from(s, o + 5) == prepend(
                seq![
                    token_at(TokenKind::Supply, s, o + 5),
                    token_at(TokenKind::IntegerLit(decimal(supply as nat)), s, o + 12),
                ],
                lex_from(s, o + 12 + decimal(supply as nat).len() as int),
            )
        }),
{
    reveal_strlit("contract ");
    reveal_strlit(" {\n");
    reveal_strlit("    symbol \"");
    reveal_strlit("\"\n");
    reveal_strlit("    decimals ");
    reveal_strlit("\n");
    reveal_strlit("    supply ");
    reveal_strlit("contract");
    reveal_strlit("symbol");
    reveal_strlit("decimals");
    reveal_strlit("supply");
    crate::text::lemma_decimal_digits(supply as nat);
    assert("supply"@[1] != "symbol"@[1]);
    let s = head_text(name, symbol, decimals, supply, tail);
    let ss = decimal(supply as nat);
    let e = ss.len() as int;
    let o = (39 + name.len() + symbol.len() + decimal(decimals as nat).len()) as int;
    let o2 = o + 12;
    let t7 = token_at(TokenKind::Supply, s, o + 5);
    let t8 = token_at(TokenKind::IntegerLit(ss), s, o2);
    assert(forall|k: int| 0 <= k < 12 ==> s[o + k] == ("\n"@ + "    supply "@)[k]);
    assert(s.subrange(o + 5, o + 11) =~= "supply"@);
    lemma_lex_word(s, o + 5, o + 11);
    lemma_lex_spaces(s, o + 11, o + 12);
    assert(forall|k: int| 0 <= k < e ==> s[o2 + k] == ss[k]);
    assert(s[o2 + e] == '\n');
    assert forall|k: int| o2 <= k < o2 + e implies is_digit(#[trigger] s[k]) by {
        assert(s[k] == ss[k - o2]);
    }
    assert(s.subrange(o2, o2 + e) =~= ss);
    lemma_lex_number(s, o2, o2 + e);
    lemma_prepend_prepend(seq![t7], seq![t8], lex_from(s, o2 + e));
    assert(seq![t7] + seq![t8] =~= seq![t7, t8]);
}

/// A flag line: after the line feed that ends the line before, four spaces,
/// the keyword, and the line feed that ends it.
#[verifier::spinoff_prover]
proof fn lemma_tail_flag(pre: Seq<char>, word: Seq<char>, rest: Seq<char>)
    requires
        word.len() > 0,
        is_alpha(word[0]),
        forall|k: int| 0 <= k < word.len() ==> is_alpha(#[trigger] word[k]),
    ensures
        ({
            let s = pre + ("\n"@ + (("    "@ + word + "\n"@) + rest));
            let p = pre.len() as int;
            &&& lex_from(s, p) == prepend(
                seq![token_at(keyword_kind(word), s, p + 5)],
                lex_from(s, p + 5 + word.len()),
            )
            &&& s == (pre + "\n"@ + "    "@ + word) + ("\n"@ + rest)
        }),
{
    reveal_strlit("\n");
    reveal_strlit("    ");
    let s = pre + ("\n"@ + (("    "@ + word + "\n"@) + rest));
    let p = pre.len() as int;
    let w = word.len() as int;
    assert(forall|k: int| 0 <= k < 5 ==> s[p + k] == ("\n"@ + "    "@)[k]);
    assert(forall|k: int| 0 <= k < w ==> s[p + 5 + k] == word[k]);
    assert(s[p + 5 + w] == '\n');
    assert forall|k: int| p + 5 <= k < p + 5 + w implies is_alnum(#[trigger] s[k]) || s[k] == '_' by {
        assert(s[k] == word[k - p - 5]);
    }
    assert(s.subrange(p + 5, p + 5 + w) =~= word);
    lemma_lex_spaces(s, p, p + 5);
    lemma_lex_word(s, p + 5, p + 5 + w);
    assert(s =~= (pre + "\n"@ + "    "@ + word) + ("\n"@ + rest));
}

/// The lexer reads `capped` as its keyword.
proof fn lemma_capped_word()
    ensures
        keyword_kind("capped"@) == TokenKind::Capped,
{
    reveal_strlit("capped");
    reveal_strlit("contract");
    reveal_strlit("symbol");
    reveal_strlit("decimals");
    reveal_strlit("supply");
    reveal_strlit("mintable");
    reveal_strlit("burnable");
    assert("capped"@ != "contract"@) by { assert("capped"@.len() != "contract"@.len()); }
    assert("capped"@ != "symbol"@) by { assert("capped"@[0] != "symbol"@[0]); }
    assert("capped"@ != "decimals"@) by { assert("capped"@.len() != "decimals"@.len()); }
    assert("capped"@ != "supply"@) by { assert("capped"@[0] != "supply"@[0]); }
    assert("capped"@ != "mintable"@) by { assert("capped"@.len() != "mintable"@.len()); }
    assert("capped"@ != "burnable"@) by { assert("capped"@.len() != "burnable"@.len()); }
}

/// The `capped` line: four spaces, the keyword, a space, the digits of the cap.
#[verifier::spinoff_prover]
#[verifier::rlimit(60)]
proof fn lemma_tail_capped(pre: Seq<char>, cap: u64, rest: Seq<char>)
    ensures
        ({
            let dd = decimal(cap as nat);
            let s = pre + ("\n"@ + (("    capped "@ + dd + "\n"@) + rest));
            let p = pre.len() as int;
            &&& lex_from(s, p) == prepend(
                seq![
                    token_at(TokenKind::Capped, s, p + 5),
                    token_at(TokenKind::IntegerLit(dd), s, p + 12),
                ],
                lex_from(s, p + 12 + dd.len()),
            )
            &&& s == (pre + "\n"@ + "    capped "@ + dd) + ("\n"@ + rest)
        }),
{
    reveal_strlit("\n");
    reveal_strlit("    capped ");
    reveal_strlit("capped");
    lemma_capped_word();
    crate::text::lemma_decimal_digits(cap as nat);
    let dd = decimal(cap as nat);
    let s = pre + ("\n"@ + (("    capped "@ + dd + "\n"@) + rest));
    let p = pre.len() as int;
    let d = dd.len() as int;
    let t1 = token_at(TokenKind::Capped, s, p + 5);
    let t2 = token_at(TokenKind::IntegerLit(dd), s, p + 12);
    assert(forall|k: int| 0 <= k < 12 ==> s[p + k] == ("\n"@ + "    capped "@)[k]);
    assert(forall|k: int| 0 <= k < d ==> s[p + 12 + k] == dd[k]);
    assert(s[p + 12 + d] == '\n');
    assert(s.subrange(p + 5, p + 11) =~= "capped"@);
    assert forall|k: int| p + 12 <= k < p + 12 + d implies is_digit(#[trigger] s[k]) by {
        assert(s[k] == dd[k - p - 12]);
    }
    assert(s.subrange(p + 12, p + 12 + d) =~= dd);
    lemma_lex_spaces(s, p, p + 5);
    lemma_lex_word(s, p + 5, p + 11);
    lemma_lex_spaces(s, p + 11, p + 12);
    lemma_lex_number(s, p + 12, p + 12 + d);
    lemma_prepend_prepend(seq![t1], seq![t2], lex_from(s, p + 12 + d));
    assert(seq![t1] + seq![t2] =~= seq![t1, t2]);
    assert(s =~= (pre + "\n"@ + "    capped "@ + dd) + ("\n"@ + rest));
}

/// The closing brace on a line of its own, then the end of the text.
proof fn lemma_tail_close(pre: Seq<char>)
    ensures
        ({
            let s = pre + ("\n"@ + "}\n"@);
            let p = pre.len() as int;
            lex_from(s, p) == Ok::<Seq<TokenView>, ErrorView>(
                seq![token_at(TokenKind::CloseBrace, s, p + 1), token_at(TokenKind::EOF, s, p + 3)],
            )
        }),
{
    reveal_strlit("\n");
    reveal_strlit("}\n");
    let s = pre + ("\n"@ + "}\n"@);
    let p = pre.len() as int;
    assert(s.len() == p + 3);
    assert(s[p] == '\n');
    assert(s[p + 1] == '}');
    assert(s[p + 2] == '\n');
    lemma_lex_spaces(s, p, p + 1);
    lemma_lex_brace(s, p + 1);
    lemma_lex_spaces(s, p + 2, p + 3);
    assert(seq![token_at(TokenKind::CloseBrace, s, p + 1)] + seq![token_at(TokenKind::EOF, s, p + 3)]
        =~= seq![token_at(TokenKind::CloseBrace, s, p + 1), token_at(TokenKind::EOF, s, p + 3)]);
}

/// The kinds of the tokens of the wizard's tail.
pub open spec fn tail_kinds(mintable: bool, burnable: bool, capped: Option<u64>) -> Seq<TokenKind> {
    (if mintable {
        seq![TokenKind::Mintable]
    } else {
        Seq::empty()
    }) + (if burnable {
        seq![TokenKind::Burnable]
    } else {
        Seq::empty()
    }) + (match capped {
        Some(cap) => seq![TokenKind::Capped, TokenKind::IntegerLit(decimal(cap as nat))],
        None => Seq::empty(),
    }) + seq![TokenKind::CloseBrace, TokenKind::EOF]
}

/// What the lexer makes of `s` from `i` on; its definition is revealed only
/// where a proof needs it.
#[verifier::opaque]
spec fn lexed(s: Seq<char>, i: int) -> Result<Seq<TokenView>, ErrorView> {
    lex_from(s, i)
}

/// A flag line that the wizard may leave out.
proof fn lemma_tail_optional_flag(
    pre: Seq<char>,
    on: bool,
    word: Seq<char>,
    line: Seq<char>,
    rest: Seq<char>,
) -> (r: (Seq<char>, Seq<TokenView>))
    requires
        word.len() > 0,
        is_alpha(word[0]),
        forall|k: int| 0 <= k < word.len() ==> is_alpha(#[trigger] word[k]),
        line == (if on {
            "    "@ + word + "\n"@
        } else {
            Seq::empty()
        }),
    ensures
        ({
            let s = pre + ("\n"@ + (line + rest));
            &&& s == r.0 + ("\n"@ + rest)
            &&& lexed(s, pre.len() as int) == prepend(r.1, lexed(s, r.0.len() as int))
            &&& kinds(r.1) == (if on {
                seq![keyword_kind(word)]
            } else {
                Seq::<TokenKind>::empty()
            })
        }),
{
    reveal(lexed);
    reveal_strlit("\n");
    reveal_strlit("    ");
    let s = pre + ("\n"@ + (line + rest));
    if on {
        lemma_tail_flag(pre, word, rest);
        let t = seq![token_at(keyword_kind(word), s, pre.len() + 5int)];
        assert(kinds(t) =~= seq![keyword_kind(word)]);
        (pre + "\n"@ + "    "@ + word, t)
    } else {
        assert(s =~= pre + ("\n"@ + rest));
        let t = Seq::<TokenView>::empty();
        if let Ok(ts) = lexed(s, pre.len() as int) {
            assert(t + ts =~= ts);
        }
        assert(kinds(t) =~= Seq::<TokenKind>::empty());
        (pre, t)
    }
}

/// The `capped` line, which the wizard may leave out.
proof fn lemma_tail_optional_capped(pre: Seq<char>, capped: Option<u64>, rest: Seq<char>) -> (r: (
    Seq<char>,
    Seq<TokenView>,
))
    ensures
        ({
            let s = pre + ("\n"@ + (capped_line(capped) + rest));
            &&& s == r.0 + ("\n"@ + rest)
            &&& lexed(s, pre.len() as int) == prepend(r.1, lexed(s, r.0.len() as int))
            &&& kinds(r.1) == match capped {
                Some(cap) => seq![TokenKind::Capped, TokenKind::IntegerLit(decimal(cap as nat))],
                None => Seq::<TokenKind>::empty(),
            }
        }),
{
    reveal(lexed);
    reveal_strlit("\n");
    reveal_strlit("    capped ");
    let s = pre + ("\n"@ + (capped_line(capped) + rest));
    match capped {
        Some(cap) => {
            lemma_tail_capped(pre, cap, rest);
            let dd = decimal(cap as nat);
            let t = seq![
                token_at(TokenKind::Capped, s, pre.len() + 5int),
                token_at(TokenKind::IntegerLit(dd), s, pre.len() + 12int),
            ];
            assert(kinds(t) =~= seq![TokenKind::Capped, TokenKind::IntegerLit(dd)]);
            (pre + "\n"@ + "    capped "@ + dd, t)
        },
        None => {
            assert(s =~= pre + ("\n"@ + rest));
            let t = Seq::<TokenView>::empty();
            if let Ok(ts) = lexed(s, pre.len() as int) {
                assert(t + ts =~= ts);
            }
            assert(kinds(t) =~= Seq::<TokenKind>::empty());
            (pre, t)
        },
    }
}

/// The flag lines are four spaces, the keyword and a line feed, and the
/// keywords are words of letters that the lexer reads as those keywords.
proof fn lemma_flag_words(mintable: bool, burnable: bool)
    ensures
        keyword_kind("mintable"@) == TokenKind::Mintable,
        keyword_kind("burnable"@) == TokenKind::Burnable,
        "mintable"@.len() > 0,
        "burnable"@.len() > 0,
        forall|k: int| 0 <= k < "mintable"@.len() ==> is_alpha(#[trigger] "mintable"@[k]),
        forall|k: int| 0 <= k < "burnable"@.len() ==> is_alpha(#[trigger] "burnable"@[k]),
        mintable_line(mintable) == (if mintable {
            "    "@ + "mintable"@ + "\n"@
        } else {
            Seq::empty()
        }),
        burnable_line(burnable) == (if burnable {
            "    "@ + "burnable"@ + "\n"@
        } else {
            Seq::empty()
        }),
{
    reveal_strlit("    mintable\n");
    reveal_strlit("    burnable\n");
    reveal_strlit("    ");
    reveal_strlit("\n");
    reveal_strlit("mintable");
    reveal_strlit("burnable");
    reveal_strlit("contract");
    reveal_strlit("symbol");
    reveal_strlit("decimals");
    reveal_strlit("supply");
    assert("mintable"@[0] != "contract"@[0]);
    assert("mintable"@[0] != "decimals"@[0]);
    assert("burnable"@[0] != "contract"@[0]);
    assert("burnable"@[0] != "decimals"@[0]);
    assert("burnable"@[0] != "mintable"@[0]);
    assert(keyword_kind("mintable"@) == TokenKind::Mintable);
    assert(keyword_kind("burnable"@) == TokenKind::Burnable);
    assert(mintable_line(mintable) == (if mintable {
        "    "@ + "mintable"@ + "\n"@
    } else {
        Seq::empty()
    })) by {
        assert("    mintable\n"@ =~= "    "@ + "mintable"@ + "\n"@);
    }
    assert(burnable_line(burnable) == (if burnable {
        "    "@ + "burnable"@ + "\n"@
    } else {
        Seq::empty()
    })) by {
        assert("    burnable\n"@ =~= "    "@ + "burnable"@ + "\n"@);
    }
}

/// The kinds of two runs of tokens, one after the other.
proof fn lemma_kinds_add(a: Seq<TokenView>, b: Seq<TokenView>)
    ensures
        kinds(a + b) == kinds(a) + kinds(b),
{
    assert(kinds(a + b) =~= kinds(a) + kinds(b));
}

/// The tail lexes into its flags, the cap, the closing brace and the end.
proof fn lemma_tail_tokens(pre: Seq<char>, mintable: bool, burnable: bool, capped: Option<u64>) -> (ts:
    Seq<TokenView>)
    ensures
        lexed(pre + wizard_tail(mintable, burnable, capped), pre.len() as int) == Ok::<
            Seq<TokenView>,
            ErrorView,
        >(ts),
        kinds(ts) == tail_kinds(mintable, burnable, capped),
{
    lemma_flag_words(mintable, burnable);
    let s = pre + wizard_tail(mintable, burnable, capped);
    let r3 = "}\n"@;
    let r2 = capped_line(capped) + r3;
    let r1 = burnable_line(burnable) + r2;
    let (p1, t_mint) = lemma_tail_optional_flag(pre, mintable, "mintable"@, mintable_line(mintable), r1);
    let (p2, t_burn) = lemma_tail_optional_flag(p1, burnable, "burnable"@, burnable_line(burnable), r2);
    let (p3, t_cap) = lemma_tail_optional_capped(p2, capped, r3);
    let t_close = seq![
        token_at(TokenKind::CloseBrace, s, p3.len() + 1int),
        token_at(TokenKind::EOF, s, p3.len() + 3int),
    ];
    assert(lexed(s, p3.len() as int) == Ok::<Seq<TokenView>, ErrorView>(t_close)) by {
        reveal(lexed);
        lemma_tail_close(p3);
    }
    lemma_prepend_prepend(t_burn, t_cap, lexed(s, p3.len() as int));
    lemma_prepend_prepend(t_mint, t_burn + t_cap, lexed(s, p3.len() as int));
    let ts = t_mint + t_burn + t_cap + t_close;
    assert(t_mint + (t_burn + t_cap) + t_close =~= ts);
    assert(lexed(s, pre.len() as int) == Ok::<Seq<TokenView>, ErrorView>(ts));
    lemma_kinds_add(t_mint, t_burn);
    lemma_kinds_add(t_mint + t_burn, t_cap);
    lemma_kinds_add(t_mint + t_burn + t_cap, t_close);
    assert(kinds(t_close) =~= seq![TokenKind::CloseBrace, TokenKind::EOF]);
    ts
}

/// The head lexes into its nine tokens.
#[verifier::spinoff_prover]
#[verifier::rlimit(40)]
proof fn lemma_head_tokens(
    name: Seq<char>,
    symbol: Seq<char>,
    decimals: u64,
    supply: u64,
    tail: Seq<char>,
) -> (toks: Seq<TokenView>)
    requires
        head_ok(name, symbol, tail),
    ensures
        ({
            let s = head_text(name, symbol, decimals, supply, tail);
            let h = wizard_head(name, symbol, decimals, supply);
            lex_from(s, 0) == prepend(toks, lex_from(s, h.len() as int))
        }),
        kinds(toks) == head_kinds(name, symbol, decimals, supply),
{
    reveal_strlit("contract ");
    reveal_strlit(" {\n");
    reveal_strlit("    symbol \"");
    reveal_strlit("\"\n");
    reveal_strlit("    decimals ");
    reveal_strlit("\n");
    reveal_strlit("    supply ");
    lemma_head_contract(name, symbol, decimals, supply, tail);
    lemma_head_name(name, symbol, decimals, supply, tail);
    lemma_head_symbol(name, symbol, decimals, supply, tail);
    lemma_head_decimals(name, symbol, decimals, supply, tail);
    lemma_head_supply(name, symbol, decimals, supply, tail);
    let s = head_text(name, symbol, decimals, supply, tail);
    let n = name.len() as int;
    let sl = symbol.len() as int;
    let d = decimal(decimals as nat).len() as int;
    let e = decimal(supply as nat).len() as int;
    let o = 39 + n + sl;
    let t0 = token_at(TokenKind::Contract, s, 0);
    let t12 = seq![token_at(TokenKind::Identifier(name), s, 9), token_at(TokenKind::OpenBrace, s, 10 + n)];
    let t34 = seq![
        token_at(TokenKind::Symbol, s, 16 + n),
        token_at(TokenKind::StringLit(symbol), s, 23 + n),
    ];
    let t56 = seq![
        token_at(TokenKind::Decimals, s, 30 + n + sl),
        token_at(TokenKind::IntegerLit(decimal(decimals as nat)), s, o),
    ];
    let t78 = seq![
        token_at(TokenKind::Supply, s, o + d + 5),
        token_at(TokenKind::IntegerLit(decimal(supply as nat)), s, o + d + 12),
    ];
    let rest = lex_from(s, o + d + 12 + e);
    assert(wizard_head(name, symbol, decimals, supply).len() == o + d + 12 + e);
    lemma_prepend_prepend(t56, t78, rest);
    lemma_prepend_prepend(t34, t56 + t78, rest);
    lemma_prepend_prepend(t12, t34 + (t56 + t78), rest);
    lemma_prepend_prepend(seq![t0], t12 + (t34 + (t56 + t78)), rest);
    let toks = seq![t0] + (t12 + (t34 + (t56 + t78)));
    assert(kinds(toks) =~= head_kinds(name, symbol, decimals, supply));
    toks
}

/// The text the wizard writes lexes into the tokens of its head and its tail.
proof fn lemma_wizard_lexes(
    name: Seq<char>,
    symbol: Seq<char>,
    decimals: u64,
    supply: u64,
    mintable: bool,
    burnable: bool,
    capped: Option<u64>,
) -> (ts: Seq<TokenView>)
    requires
        is_plain_name(name),
        is_plain_symbol(symbol),
    ensures
        lex(contract_source(name, symbol, decimals, supply, mintable, burnable, capped)) == Ok::<
            Seq<TokenView>,
            ErrorView,
        >(ts),
        kinds(ts) == head_kinds(name, symbol, decimals, supply) + tail_kinds(
            mintable,
            burnable,
            capped,
        ),
{
    reveal_strlit("\n");
    let head = wizard_head(name, symbol, decimals, supply);
    let tail = wizard_tail(mintable, burnable, capped);
    assert(tail[0] == '\n');
    let h = lemma_head_tokens(name, symbol, decimals, supply, tail);
    let t = lemma_tail_tokens(head, mintable, burnable, capped);
    reveal(lexed);
    assert(kinds(h + t) =~= kinds(h) + kinds(t));
    h + t
}

/// The values the wizard was given, read back from a contract.
pub open spec fn holds_wizard_values(
    c: ContractView,
    name: Seq<char>,
    symbol: Seq<char>,
    decimals: u64,
    supply: u64,
    mintable: bool,
    burnable: bool,
    capped: Option<u64>,
) -> bool {
    &&& c.name == name
    &&& c.symbol matches Some((v, _)) && v == symbol
    &&& c.decimals matches Some((v, _)) && v == decimals
    &&& c.supply matches Some((v, _)) && v == supply
    &&& c.mintable is Some <==> mintable
    &&& c.burnable is Some <==> burnable
    &&& match capped {
        Some(cap) => c.capped matches Some((v, _)) && v == cap,
        None => c.capped is None,
    }
    &&& c.owner is None
}

/// Tokens of the wizard's kinds parse back into the wizard's values.
#[verifier::spinoff_prover]
#[verifier::rlimit(80)]
proof fn lemma_wizard_parses(
    ts: Seq<TokenView>,
    src: Seq<char>,
    name: Seq<char>,
    symbol: Seq<char>,
    decimals: u64,
    supply: u64,
    mintable: bool,
    burnable: bool,
    capped: Option<u64>,
)
    requires
        kinds(ts) == head_kinds(name, symbol, decimals, supply) + tail_kinds(
            mintable,
            burnable,
            capped,
        ),
    ensures
        parse_from(ts, src, 0) matches Some(Ok(c)) && holds_wizard_values(
            c,
            name,
            symbol,
            decimals,
            supply,
            mintable,
            burnable,
            capped,
        ),
{
    crate::text::lemma_parse_decimal(decimals);
    crate::text::lemma_parse_decimal(supply);
    if let Some(cap) = capped {
        crate::text::lemma_parse_decimal(cap);
    }
    let k = kinds(ts);
    assert(ts.len() == k.len());
    assert forall|i: int| 0 <= i < ts.len() implies #[trigger] ts[i].kind == k[i] by {}
    let m: int = if mintable { 1 } else { 0 };
    let b: int = if burnable { 1 } else { 0 };
    let cp: int = if capped is Some { 2 } else { 0 };
    let hk = head_kinds(name, symbol, decimals, supply);
    let tk = tail_kinds(mintable, burnable, capped);
    assert(k.len() == 11 + m + b + cp);
    assert forall|i: int| 0 <= i < 9 implies #[trigger] k[i] == hk[i] by {}
    assert forall|i: int| 9 <= i < k.len() implies #[trigger] k[i] == tk[i - 9] by {}
    assert(ts[0].kind == TokenKind::Contract);
    assert(ts[1].kind == TokenKind::Identifier(name));
    assert(ts[2].kind == TokenKind::OpenBrace);
    assert(ts[3].kind == TokenKind::Symbol);
    assert(ts[4].kind == TokenKind::StringLit(symbol));
    assert(ts[5].kind == TokenKind::Decimals);
    assert(ts[6].kind == TokenKind::IntegerLit(decimal(decimals as nat)));
    assert(ts[7].kind == TokenKind::Supply);
    assert(ts[8].kind == TokenKind::IntegerLit(decimal(supply as nat)));
    let c0 = empty_contract(name, pos_of(ts[1]));
    let c1 = ContractView { symbol: Some((symbol, pos_of(ts[3]))), ..c0 };
    let c2 = ContractView { decimals: Some((decimals, pos_of(ts[5]))), ..c1 };
    let c3 = ContractView { supply: Some((supply, pos_of(ts[7]))), ..c2 };
    assert(parse_fields_from(ts, src, 3, c0) == parse_fields_from(ts, src, 5, c1));
    assert(parse_fields_from(ts, src, 5, c1) == parse_fields_from(ts, src, 7, c2));
    assert(parse_fields_from(ts, src, 7, c2) == parse_fields_from(ts, src, 9, c3));
    let c4 = if mintable {
        ContractView { mintable: Some(pos_of(ts[9])), ..c3 }
    } else {
        c3
    };
    if mintable {
        assert(ts[9].kind == TokenKind::Mintable);
        assert(parse_fields_from(ts, src, 9, c3) == parse_fields_from(ts, src, 9 + m, c4));
    }
    let c5 = if burnable {
        ContractView { burnable: Some(pos_of(ts[9 + m])), ..c4 }
    } else {
        c4
    };
    if burnable {
        assert(ts[9 + m].kind == TokenKind::Burnable);
        assert(parse_fields_from(ts, src, 9 + m, c4) == parse_fields_from(ts, src, 9 + m + b, c5));
    }
    let c6 = match capped {
        Some(cap) => ContractView { capped: Some((cap, pos_of(ts[9 + m + b]))), ..c5 },
        None => c5,
    };
    if let Some(cap) = capped {
        assert(ts[9 + m + b].kind == TokenKind::Capped);
        assert(ts[10 + m + b].kind == TokenKind::IntegerLit(decimal(cap as nat)));
        assert(parse_fields_from(ts, src, 9 + m + b, c5) == parse_fields_from(
            ts,
            src,
            9 + m + b + cp,
            c6,
        ));
    }
    let q = 9 + m + b + cp;
    assert(ts[q].kind == TokenKind::CloseBrace);
    assert(ts[q + 1].kind == TokenKind::EOF);
    assert(parse_fields_from(ts, src, q, c6) == Some(Ok::<(ContractView, int), ErrorView>((c6, q))));
    assert(parse_fields_from(ts, src, 3, c0) == Some(Ok::<(ContractView, int), ErrorView>((c6, q))));
    assert(parse_from(ts, src, 0) == Some(Ok::<ContractView, ErrorView>(c6)));
}

/// What the wizard writes checks clean: for a plain name and symbol, and
/// values that pass the wizard's own checks (decimals of at most 77, a
/// positive supply, and a cap, asked only of a mintable token, no smaller than
/// the supply), the text lexes, parses back into exactly those values, and the
/// analysis reports no error.
pub proof fn lemma_wizard_output_checks(
    name: Seq<char>,
    symbol: Seq<char>,
    decimals: u64,
    supply: u64,
    mintable: bool,
    burnable: bool,
    capped: Option<u64>,
)
    requires
        is_plain_name(name),
        is_plain_symbol(symbol),
        decimals <= 77,
        supply > 0,
        capped matches Some(cap) ==> mintable && cap >= supply,
    ensures
        ({
            let src = contract_source(name, symbol, decimals, supply, mintable, burnable, capped);
            lex(src) matches Ok(ts) && parse_from(ts, src, 0) matches Some(Ok(c))
                && holds_wizard_values(c, name, symbol, decimals, supply, mintable, burnable, capped)
                && analysis_errors(c, src).len() == 0
        }),
{
    let src = contract_source(name, symbol, decimals, supply, mintable, burnable, capped);
    let ts = lemma_wizard_lexes(name, symbol, decimals, supply, mintable, burnable, capped);
    lemma_wizard_parses(ts, src, name, symbol, decimals, supply, mintable, burnable, capped);
    if let Some(Ok(c)) = parse_from(ts, src, 0) {
        lemma_analysis_accepts_valid(c, src);
        assert(contract_is_valid(c));
    }
}

} // verus!
