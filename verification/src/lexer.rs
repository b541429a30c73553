//! Turns the text of a `.tc` file into tokens.
use vstd::prelude::*;
use vstd::string::*;
use crate::errors::{
    error_view, get_source_line, line_end, nth_line_start, source_line_of, CompileError, ErrorKind, ErrorView,
};
use crate::lex_tokens::{tokens_view, LexToken, LexTokenType, TokenKind, TokenView};
use crate::text::{
    char_is_alnum, char_is_alpha, char_is_digit, char_is_hex, char_is_ws, chars_of, char_string,
    concat3, decimal, decimal_string, hex_val, hex_value, is_alnum, is_alpha, is_digit, is_hex,
    is_ws, string_from_chars,
};

verus! {

// ---------------------------------------------------------------------------
// Positions
// ---------------------------------------------------------------------------

/// The line (from 1) of character `i` of `s`.
pub open spec fn line_at(s: Seq<char>, i: int) -> nat
    decreases i,
{
    if i <= 0 {
        1
    } else if s[i - 1] == '\n' {
        line_at(s, i - 1) + 1
    } else {
        line_at(s, i - 1)
    }
}

/// The column (from 1) of character `i` of `s`.
pub open spec fn col_at(s: Seq<char>, i: int) -> nat
    decreases i,
{
    if i <= 0 {
        1
    } else if s[i - 1] == '\n' {
        1
    } else {
        col_at(s, i - 1) + 1
    }
}

proof fn lemma_position_bounds(s: Seq<char>, i: int)
    requires
        0 <= i,
    ensures
        1 <= line_at(s, i) <= i + 1,
        1 <= col_at(s, i) <= i + 1,
    decreases i,
{
    if i > 0 {
        lemma_position_bounds(s, i - 1);
    }
}

// ---------------------------------------------------------------------------
// Runs of characters
// ---------------------------------------------------------------------------

pub open spec fn ws_pred() -> spec_fn(char) -> bool {
    |c: char| is_ws(c)
}

pub open spec fn digit_pred() -> spec_fn(char) -> bool {
    |c: char| is_digit(c)
}

pub open spec fn word_pred() -> spec_fn(char) -> bool {
    |c: char| is_alnum(c) || c == '_'
}

pub open spec fn hex_pred() -> spec_fn(char) -> bool {
    |c: char| is_hex(c)
}

/// The end of the run of characters satisfying `p` that starts at `i`.
pub open spec fn run_end(s: Seq<char>, i: int, p: spec_fn(char) -> bool) -> int
    decreases s.len() - i,
{
    if 0 <= i < s.len() && p(s[i]) {
        run_end(s, i + 1, p)
    } else {
        i
    }
}

proof fn lemma_run_end(s: Seq<char>, i: int, p: spec_fn(char) -> bool)
    requires
        0 <= i <= s.len(),
    ensures
        i <= run_end(s, i, p) <= s.len(),
        forall|k: int| i <= k < run_end(s, i, p) ==> p(#[trigger] s[k]),
        run_end(s, i, p) < s.len() ==> !p(s[run_end(s, i, p)]),
    decreases s.len() - i,
{
    if i < s.len() && p(s[i]) {
        lemma_run_end(s, i + 1, p);
    }
}

/// Where a string literal whose body starts at `k` stops: at its closing
/// quote, at a line feed, or at the end of the input.
pub open spec fn string_end(s: Seq<char>, k: int) -> int
    decreases s.len() - k,
{
    if k < 0 || k >= s.len() || s[k] == '"' || s[k] == '\n' {
        k
    } else {
        string_end(s, k + 1)
    }
}

proof fn lemma_string_end(s: Seq<char>, k: int)
    requires
        0 <= k <= s.len(),
    ensures
        k <= string_end(s, k) <= s.len(),
        forall|j: int| k <= j < string_end(s, k) ==> s[j] != '"' && s[j] != '\n',
        string_end(s, k) < s.len() ==> (s[string_end(s, k)] == '"' || s[string_end(s, k)]
            == '\n'),
    decreases s.len() - k,
{
    if k < s.len() && s[k] != '"' && s[k] != '\n' {
        lemma_string_end(s, k + 1);
    }
}

/// Where scanning resumes after a comment that starts at `i`: past the line
/// feed that ends it, or at the end of the input.
pub open spec fn comment_end(s: Seq<char>, i: int) -> int {
    let e = line_end(s, i);
    if e < s.len() {
        e + 1
    } else {
        e
    }
}

// ---------------------------------------------------------------------------
// What one step of the lexer does
// ---------------------------------------------------------------------------

pub open spec fn token_at(kind: TokenKind, s: Seq<char>, i: int) -> TokenView {
    TokenView { kind, line: line_at(s, i), col: col_at(s, i) }
}

/// A lexer error reported at character `i`, with the text of its line.
pub open spec fn lex_error_at(message: Seq<char>, s: Seq<char>, i: int) -> ErrorView {
    error_view(
        ErrorKind::LexerError,
        message,
        line_at(s, i),
        col_at(s, i),
        source_line_of(s, line_at(s, i)),
    )
}

/// The outcome of reading at one position: skip to a later position, produce a
/// token and go on at a later position, or fail.
pub enum Step {
    Skip(int),
    Emit(TokenView, int),
    Fail(ErrorView),
}

pub open spec fn keyword_kind(w: Seq<char>) -> TokenKind {
    if w == "contract"@ {
        TokenKind::Contract
    } else if w == "symbol"@ {
        TokenKind::Symbol
    } else if w == "decimals"@ {
        TokenKind::Decimals
    } else if w == "supply"@ {
        TokenKind::Supply
    } else if w == "mintable"@ {
        TokenKind::Mintable
    } else if w == "burnable"@ {
        TokenKind::Burnable
    } else if w == "capped"@ {
        TokenKind::Capped
    } else if w == "owner"@ {
        TokenKind::Owner
    } else {
        TokenKind::Identifier(w)
    }
}

/// The 20 bytes that 40 hexadecimal digits spell, two digits per byte.
pub open spec fn hex_bytes(h: Seq<char>) -> Seq<u8> {
    Seq::new(20, |k: int| (hex_val(h[2 * k]) * 16 + hex_val(h[2 * k + 1])) as u8)
}

pub open spec fn number_step(s: Seq<char>, i: int) -> Step {
    let e = run_end(s, i, digit_pred());
    if e < s.len() && !(is_ws(s[e]) || s[e] == '}') {
        Step::Fail(
            lex_error_at(
                "Invalid number literal '"@ + s.subrange(i, e) + seq![s[e]] + "'"@,
                s,
                i,
            ),
        )
    } else {
        Step::Emit(token_at(TokenKind::IntegerLit(s.subrange(i, e)), s, i), e)
    }
}

pub open spec fn word_step(s: Seq<char>, i: int) -> Step {
    let e = run_end(s, i, word_pred());
    if e < s.len() && !(is_ws(s[e]) || s[e] == '{' || s[e] == '}') {
        Step::Fail(
            lex_error_at(
                "Invalid character '"@ + seq![s[e]] + "' in identifier '"@ + s.subrange(i, e)
                    + "'"@,
                s,
                i,
            ),
        )
    } else {
        Step::Emit(token_at(keyword_kind(s.subrange(i, e)), s, i), e)
    }
}

pub open spec fn string_step(s: Seq<char>, i: int) -> Step {
    let e = string_end(s, i + 1);
    if e < s.len() && s[e] == '"' {
        Step::Emit(token_at(TokenKind::StringLit(s.subrange(i + 1, e)), s, i), e + 1)
    } else {
        Step::Fail(lex_error_at("Unterminated string literal — missing closing '\"'"@, s, i))
    }
}

pub open spec fn address_step(s: Seq<char>, i: int) -> Step {
    let e = run_end(s, i + 2, hex_pred());
    let h = s.subrange(i + 2, e);
    if e < s.len() && !(is_ws(s[e]) || s[e] == '}') {
        Step::Fail(lex_error_at("Invalid character '"@ + seq![s[e]] + "' in address"@, s, i))
    } else if h.len() != 40 {
        Step::Fail(
            lex_error_at(
                "Address must be 40 hex characters (got "@ + decimal(h.len()) + ")"@,
                s,
                i,
            ),
        )
    } else {
        Step::Emit(
            token_at(TokenKind::AddressLit { bytes: hex_bytes(h), raw: "0x"@ + h }, s, i),
            e,
        )
    }
}

/// What the lexer does at position `i` (inside the input).
pub open spec fn lex_step(s: Seq<char>, i: int) -> Step {
    let c = s[i];
    if is_ws(c) {
        Step::Skip(run_end(s, i, ws_pred()))
    } else if c == '#' {
        Step::Skip(comment_end(s, i))
    } else if c == '{' {
        Step::Emit(token_at(TokenKind::OpenBrace, s, i), i + 1)
    } else if c == '}' {
        Step::Emit(token_at(TokenKind::CloseBrace, s, i), i + 1)
    } else if c == '"' {
        string_step(s, i)
    } else if c == '0' && i + 1 < s.len() && s[i + 1] == 'x' {
        address_step(s, i)
    } else if is_digit(c) {
        number_step(s, i)
    } else if is_alpha(c) || c == '_' {
        word_step(s, i)
    } else {
        Step::Fail(lex_error_at("Unexpected character '"@ + seq![c] + "'"@, s, i))
    }
}

/// Every step that moves on moves forward, and stays inside the input.
pub proof fn lemma_step_progress(s: Seq<char>, i: int)
    requires
        0 <= i < s.len(),
    ensures
        lex_step(s, i) matches Step::Skip(j) ==> i < j <= s.len(),
        lex_step(s, i) matches Step::Emit(_, j) ==> i < j <= s.len(),
{
    let c = s[i];
    if is_ws(c) {
        lemma_run_end(s, i, ws_pred());
    } else if c == '#' {
        crate::errors::lemma_line_end_bounds(s, i);
    } else if c == '"' {
        lemma_string_end(s, i + 1);
    } else if c == '0' && i + 1 < s.len() && s[i + 1] == 'x' {
        lemma_run_end(s, i + 2, hex_pred());
    } else if is_digit(c) {
        lemma_run_end(s, i, digit_pred());
    } else if is_alpha(c) || c == '_' {
        lemma_run_end(s, i, word_pred());
    }
}

/// Tokens `prefix` followed by the outcome `rest`.
pub open spec fn prepend(
    prefix: Seq<TokenView>,
    rest: Result<Seq<TokenView>, ErrorView>,
) -> Result<Seq<TokenView>, ErrorView> {
    match rest {
        Ok(ts) => Ok(prefix + ts),
        Err(e) => Err(e),
    }
}

/// The whole outcome of lexing `s` from position `i`: the tokens up to an
/// end-of-file token at the end of the input, or the first error.
pub open spec fn lex_from(s: Seq<char>, i: int) -> Result<Seq<TokenView>, ErrorView>
    decreases s.len() - i,
{
    if i < 0 || i >= s.len() {
        Ok(seq![token_at(TokenKind::EOF, s, i)])
    } else {
        proof {
            lemma_step_progress(s, i);
        }
        match lex_step(s, i) {
            Step::Skip(j) => lex_from(s, j),
            Step::Emit(t, j) => prepend(seq![t], lex_from(s, j)),
            Step::Fail(e) => Err(e),
        }
    }
}


/// A successful lex ends with exactly one end-of-file token, at the end.
pub proof fn lemma_lex_ends_with_eof(s: Seq<char>, i: int)
    ensures
        lex_from(s, i) matches Ok(ts) ==> {
            &&& ts.len() >= 1
            &&& ts.last().kind is EOF
            &&& forall|k: int| 0 <= k < ts.len() - 1 ==> !(#[trigger] ts[k].kind is EOF)
        },
    decreases s.len() - i,
{
    if 0 <= i < s.len() {
        lemma_step_progress(s, i);
        match lex_step(s, i) {
            Step::Skip(j) => {
                lemma_lex_ends_with_eof(s, j);
            },
            Step::Emit(t, j) => {
                lemma_lex_ends_with_eof(s, j);
                lemma_step_emits_no_eof(s, i);
                if let Ok(rest) = lex_from(s, j) {
                    let ts = seq![t] + rest;
                    assert forall|k: int| 0 <= k < ts.len() - 1 implies !(#[trigger] ts[k].kind is EOF) by {
                        if k > 0 {
                            assert(ts[k] == rest[k - 1]);
                        }
                    }
                }
            },
            Step::Fail(_) => {},
        }
    }
}

/// Token `a` stands before token `b` in the source: on an earlier line, or
/// on the same line in an earlier column.
pub open spec fn stands_before(a: TokenView, b: TokenView) -> bool {
    a.line < b.line || (a.line == b.line && a.col < b.col)
}

/// Token `t` stands at character `i` of `s` or after it.
pub open spec fn at_or_after(t: TokenView, s: Seq<char>, i: int) -> bool {
    t.line > line_at(s, i) || (t.line == line_at(s, i) && t.col >= col_at(s, i))
}

/// A later character has a later position.
proof fn lemma_positions_increase(s: Seq<char>, i: int, j: int)
    requires
        0 <= i < j,
    ensures
        line_at(s, i) < line_at(s, j) || (line_at(s, i) == line_at(s, j) && col_at(s, i) < col_at(
            s,
            j,
        )),
    decreases j - i,
{
    if i + 1 < j {
        lemma_positions_increase(s, i, j - 1);
    }
}

proof fn lemma_step_emits_here(s: Seq<char>, i: int)
    requires
        0 <= i < s.len(),
    ensures
        lex_step(s, i) matches Step::Emit(t, _) ==> t.line == line_at(s, i) && t.col == col_at(
            s,
            i,
        ),
{
}

/// The tokens of a successful lex stand in the order of the source: each one
/// strictly before the next, the end-of-file token last.
pub proof fn lemma_tokens_in_source_order(s: Seq<char>, i: int)
    requires
        0 <= i,
    ensures
        lex_from(s, i) matches Ok(ts) ==> {
            &&& at_or_after(ts[0], s, i)
            &&& forall|k: int| 0 <= k < ts.len() - 1 ==> stands_before(#[trigger] ts[k], ts[k + 1])
        },
    decreases s.len() - i,
{
    lemma_lex_ends_with_eof(s, i);
    if i < s.len() {
        lemma_step_progress(s, i);
        lemma_step_emits_here(s, i);
        match lex_step(s, i) {
            Step::Skip(j) => {
                lemma_tokens_in_source_order(s, j);
                lemma_positions_increase(s, i, j);
            },
            Step::Emit(t, j) => {
                lemma_tokens_in_source_order(s, j);
                lemma_positions_increase(s, i, j);
                lemma_lex_ends_with_eof(s, j);
                if let Ok(rest) = lex_from(s, j) {
                    let ts = seq![t] + rest;
                    assert(ts[0] == t);
                    assert forall|k: int| 0 <= k < ts.len() - 1 implies stands_before(
                        #[trigger] ts[k],
                        ts[k + 1],
                    ) by {
                        if k == 0 {
                            assert(ts[1] == rest[0]);
                        } else {
                            assert(ts[k] == rest[k - 1]);
                            assert(ts[k + 1] == rest[k]);
                        }
                    }
                }
            },
            Step::Fail(_) => {},
        }
    }
}

/// Reading an address at `i` (`0x` then hexadecimal digits): the digits are
/// the longest run after `0x`; when it ends the token (at the end, at
/// whitespace or at `}`) and holds 40 digits, the token is the 20 bytes they
/// spell, two digits per byte, with the text `0x` and the digits; with
/// another count it is the length error; when another character follows, it
/// is the invalid-character error. Errors stand at the `0`.
pub proof fn lemma_address_law(s: Seq<char>, i: int)
    requires
        0 <= i,
        i + 1 < s.len(),
        s[i] == '0',
        s[i + 1] == 'x',
    ensures
        ({
            let e = run_end(s, i + 2, hex_pred());
            let h = s.subrange(i + 2, e);
            let ends = e == s.len() || is_ws(s[e]) || s[e] == '}';
            &&& i + 2 <= e <= s.len()
            &&& forall|k: int| i + 2 <= k < e ==> is_hex(#[trigger] s[k])
            &&& e < s.len() ==> !is_hex(s[e])
            &&& ends && h.len() == 40 ==> lex_step(s, i) == Step::Emit(
                token_at(TokenKind::AddressLit { bytes: hex_bytes(h), raw: "0x"@ + h }, s, i),
                e,
            )
            &&& ends && h.len() != 40 ==> lex_step(s, i) == Step::Fail(
                lex_error_at(
                    "Address must be 40 hex characters (got "@ + decimal(h.len()) + ")"@,
                    s,
                    i,
                ),
            )
            &&& !ends ==> lex_step(s, i) == Step::Fail(
                lex_error_at("Invalid character '"@ + seq![s[e]] + "' in address"@, s, i),
            )
        }),
{
    lemma_run_end(s, i + 2, hex_pred());
}

/// Reading a word at `i` (a letter or `_`, then letters, digits and `_`): the
/// word is the longest such run; when it ends the token (at the end, at
/// whitespace or at a brace) the token is the keyword it spells, exactly, or
/// an identifier; otherwise it is the invalid-character error, at `i`.
pub proof fn lemma_word_law(s: Seq<char>, i: int)
    requires
        0 <= i < s.len(),
        is_alpha(s[i]) || s[i] == '_',
    ensures
        ({
            let e = run_end(s, i, word_pred());
            let w = s.subrange(i, e);
            let ends = e == s.len() || is_ws(s[e]) || s[e] == '{' || s[e] == '}';
            &&& i < e <= s.len()
            &&& forall|k: int| i <= k < e ==> is_alnum(#[trigger] s[k]) || s[k] == '_'
            &&& e < s.len() ==> !(is_alnum(s[e]) || s[e] == '_')
            &&& ends ==> lex_step(s, i) == Step::Emit(token_at(keyword_kind(w), s, i), e)
            &&& !ends ==> lex_step(s, i) == Step::Fail(
                lex_error_at(
                    "Invalid character '"@ + seq![s[e]] + "' in identifier '"@ + w + "'"@,
                    s,
                    i,
                ),
            )
        }),
{
    lemma_run_end(s, i, word_pred());
    assert(is_alnum(s[i]) || s[i] == '_') by {
        assert(is_alpha(s[i]) ==> is_alnum(s[i]));
    }
    lemma_run_end(s, i + 1, word_pred());
    assert(!is_digit(s[i])) by {
        assert(is_alpha(s[i]) ==> !is_digit(s[i]));
    }
}

/// Reading a string literal at `i`: it is the text up to the next quote when
/// no line feed comes first, and the token continues after that quote;
/// otherwise (a line feed or the end before a closing quote) it is the
/// unterminated-string error, at the opening quote.
pub proof fn lemma_string_law(s: Seq<char>, i: int)
    requires
        0 <= i < s.len(),
        s[i] == '"',
    ensures
        ({
            let e = string_end(s, i + 1);
            let closed = e < s.len() && s[e] == '"';
            &&& i + 1 <= e <= s.len()
            &&& forall|k: int| i + 1 <= k < e ==> #[trigger] s[k] != '"' && s[k] != '\n'
            &&& e < s.len() ==> (s[e] == '"' || s[e] == '\n')
            &&& closed ==> lex_step(s, i) == Step::Emit(
                token_at(TokenKind::StringLit(s.subrange(i + 1, e)), s, i),
                e + 1,
            )
            &&& !closed ==> lex_step(s, i) == Step::Fail(
                lex_error_at("Unterminated string literal — missing closing '\"'"@, s, i),
            )
        }),
{
    lemma_string_end(s, i + 1);
}

/// Every lexical error is a lexer error that carries the text of its own
/// line.
pub proof fn lemma_lex_errors_carry_their_line(s: Seq<char>, i: int)
    ensures
        lex_from(s, i) matches Err(e) ==> e.kind == ErrorKind::LexerError && e.source_line
            == source_line_of(s, e.line) && e.suggestion is None,
    decreases s.len() - i,
{
    if 0 <= i < s.len() {
        lemma_step_progress(s, i);
        match lex_step(s, i) {
            Step::Skip(j) => lemma_lex_errors_carry_their_line(s, j),
            Step::Emit(_, j) => lemma_lex_errors_carry_their_line(s, j),
            Step::Fail(_) => {},
        }
    }
}

/// The first character of a token's text in the source.
pub open spec fn lexeme_first(k: TokenKind) -> char {
    match k {
        TokenKind::StringLit(_) => '"',
        TokenKind::IntegerLit(v) => v[0],
        TokenKind::AddressLit { .. } => '0',
        TokenKind::Identifier(w) => w[0],
        TokenKind::OpenBrace => '{',
        TokenKind::CloseBrace => '}',
        TokenKind::Contract => 'c',
        TokenKind::Symbol => 's',
        TokenKind::Decimals => 'd',
        TokenKind::Supply => 's',
        TokenKind::Mintable => 'm',
        TokenKind::Burnable => 'b',
        TokenKind::Capped => 'c',
        TokenKind::Owner => 'o',
        TokenKind::EOF => ' ',
    }
}

/// Where the line of character `i` starts: after the last line feed before
/// `i`, and that line is the one `line_at` numbers.
proof fn lemma_line_of_char(s: Seq<char>, i: int)
    requires
        0 <= i < s.len(),
    ensures
        ({
            let st = i - col_at(s, i) + 1;
            &&& 0 <= st <= i
            &&& forall|j: int| st <= j < i ==> #[trigger] s[j] != '\n'
            &&& nth_line_start(s, (line_at(s, i) - 1) as nat) == Some(st)
        }),
    decreases i,
{
    lemma_position_bounds(s, i);
    if i > 0 {
        lemma_line_of_char(s, i - 1);
        lemma_position_bounds(s, i - 1);
        if s[i - 1] == '\n' {
            let prev = i - 1 - col_at(s, i - 1) + 1;
            crate::errors::lemma_line_end_bounds(s, prev);
            let e = line_end(s, prev);
            assert(e == i - 1) by {
                if e < i - 1 {
                    assert(s[e] == '\n');
                }
                if e > i - 1 {
                    assert(s[i - 1] != '\n');
                }
            }
            assert(((line_at(s, i) - 1) as nat) == line_at(s, i - 1));
            assert(((line_at(s, i - 1) - 1) as nat + 1) as nat == line_at(s, i - 1));
        }
    }
}

/// A character that is not whitespace stands in the text of its line, at
/// its column.
pub proof fn lemma_char_in_its_line(s: Seq<char>, i: int)
    requires
        0 <= i < s.len(),
        !is_ws(s[i]),
    ensures
        col_at(s, i) >= 1,
        col_at(s, i) - 1 < source_line_of(s, line_at(s, i)).len(),
        source_line_of(s, line_at(s, i))[col_at(s, i) - 1] == s[i],
{
    lemma_line_of_char(s, i);
    lemma_position_bounds(s, i);
    let st = i - col_at(s, i) + 1;
    crate::errors::lemma_line_end_bounds(s, st);
    let e = line_end(s, st);
    assert(e > i) by {
        if e <= i {
            if e < i {
                assert(s[e] == '\n');
            }
            assert(s[e] == '\n');
        }
    }
    let raw = s.subrange(st, e);
    assert(raw[i - st] == s[i]);
    if e < s.len() && raw.len() > 0 && raw.last() == '\r' {
        assert(e - 1 != i);
    }
}

proof fn lemma_step_emits_its_first_char(s: Seq<char>, i: int)
    requires
        0 <= i < s.len(),
    ensures
        lex_step(s, i) matches Step::Emit(t, _) ==> lexeme_first(t.kind) == s[i] && !is_ws(s[i]),
{
    reveal_strlit("contract");
    reveal_strlit("symbol");
    reveal_strlit("decimals");
    reveal_strlit("supply");
    reveal_strlit("mintable");
    reveal_strlit("burnable");
    reveal_strlit("capped");
    reveal_strlit("owner");
    let c = s[i];
    if !is_ws(c) && c != '#' && c != '{' && c != '}' && c != '"' && !(c == '0' && i + 1 < s.len()
        && s[i + 1] == 'x') {
        if is_digit(c) {
            lemma_run_end(s, i, digit_pred());
            let e = run_end(s, i, digit_pred());
            assert(s.subrange(i, e)[0] == c);
        } else if is_alpha(c) || c == '_' {
            lemma_word_law(s, i);
            let e = run_end(s, i, word_pred());
            let w = s.subrange(i, e);
            assert(w[0] == c);
            if w == "contract"@ {
                assert(w[0] == "contract"@[0]);
            } else if w == "symbol"@ {
                assert(w[0] == "symbol"@[0]);
            } else if w == "decimals"@ {
                assert(w[0] == "decimals"@[0]);
            } else if w == "supply"@ {
                assert(w[0] == "supply"@[0]);
            } else if w == "mintable"@ {
                assert(w[0] == "mintable"@[0]);
            } else if w == "burnable"@ {
                assert(w[0] == "burnable"@[0]);
            } else if w == "capped"@ {
                assert(w[0] == "capped"@[0]);
            } else if w == "owner"@ {
                assert(w[0] == "owner"@[0]);
            }
        }
    }
}

/// What a successful lex gives: each token before the next in the source,
/// one end-of-file token, at the end; and each other token stands in the
/// text of its line at its column, which holds the first character of the
/// token's text. A failed lex gives a lexer error with the text of its line.
pub proof fn lemma_tokenize_laws(s: Seq<char>)
    ensures
        lex(s) matches Ok(ts) ==> {
            &&& ts.len() >= 1
            &&& ts.last().kind is EOF
            &&& forall|k: int| 0 <= k < ts.len() - 1 ==> !(#[trigger] ts[k].kind is EOF)
            &&& forall|k: int| 0 <= k < ts.len() - 1 ==> stands_before(#[trigger] ts[k], ts[k + 1])
            &&& forall|k: int|
                0 <= k < ts.len() - 1 ==> #[trigger] ts[k].col >= 1 && ts[k].col - 1
                    < source_line_of(s, ts[k].line).len() && source_line_of(s, ts[k].line)[ts[k].col
                    - 1] == lexeme_first(ts[k].kind)
        },
        lex(s) matches Err(e) ==> e.kind == ErrorKind::LexerError && e.source_line
            == source_line_of(s, e.line),
{
    lemma_lex_ends_with_eof(s, 0);
    lemma_tokens_in_source_order(s, 0);
    lemma_lex_errors_carry_their_line(s, 0);
    lemma_tokens_stand_in_their_lines(s, 0);
}

proof fn lemma_tokens_stand_in_their_lines(s: Seq<char>, i: int)
    requires
        0 <= i,
    ensures
        lex_from(s, i) matches Ok(ts) ==> forall|k: int|
            0 <= k < ts.len() - 1 ==> #[trigger] ts[k].col >= 1 && ts[k].col - 1 < source_line_of(
                s,
                ts[k].line,
            ).len() && source_line_of(s, ts[k].line)[ts[k].col - 1] == lexeme_first(ts[k].kind),
    decreases s.len() - i,
{
    if i < s.len() {
        lemma_step_progress(s, i);
        match lex_step(s, i) {
            Step::Skip(j) => lemma_tokens_stand_in_their_lines(s, j),
            Step::Emit(t, j) => {
                lemma_tokens_stand_in_their_lines(s, j);
                lemma_step_emits_here(s, i);
                lemma_step_emits_its_first_char(s, i);
                lemma_char_in_its_line(s, i);
                if let Ok(rest) = lex_from(s, j) {
                    let ts = seq![t] + rest;
                    assert forall|k: int| 0 <= k < ts.len() - 1 implies #[trigger] ts[k].col >= 1
                        && ts[k].col - 1 < source_line_of(s, ts[k].line).len() && source_line_of(
                        s,
                        ts[k].line,
                    )[ts[k].col - 1] == lexeme_first(ts[k].kind) by {
                        if k > 0 {
                            assert(ts[k] == rest[k - 1]);
                        }
                    }
                }
            },
            Step::Fail(_) => {},
        }
    }
}

/// A comment runs from `#` to the end of its line: lexing resumes just past
/// the first line feed after the `#`, or ends there when none follows.
pub proof fn lemma_comment_runs_to_line_end(s: Seq<char>, i: int)
    requires
        0 <= i < s.len(),
        s[i] == '#',
    ensures
        forall|e: int|
            i < e < s.len() && s[e] == '\n' && (forall|j: int| i <= j < e ==> s[j] != '\n')
                ==> lex_from(s, i) == #[trigger] lex_from(s, e + 1),
        (forall|j: int| i <= j < s.len() ==> s[j] != '\n') ==> lex_from(s, i) == Ok::<
            Seq<TokenView>,
            ErrorView,
        >(seq![token_at(TokenKind::EOF, s, s.len() as int)]),
{
    crate::errors::lemma_line_end_bounds(s, i);
    let e = line_end(s, i);
    assert forall|f: int|
        i < f < s.len() && s[f] == '\n' && (forall|j: int| i <= j < f ==> s[j] != '\n')
            implies lex_from(s, i) == #[trigger] lex_from(s, f + 1) by {
        if e < f {
            assert(s[e] == '\n');
        }
        if f < e {
            assert(s[f] != '\n');
        }
    }
    if forall|j: int| i <= j < s.len() ==> s[j] != '\n' {
        if e < s.len() {
            assert(s[e] == '\n');
        }
        assert(e == s.len());
        assert(lex_step(s, i) == Step::Skip(s.len() as int));
        assert(lex_from(s, s.len() as int) == Ok::<Seq<TokenView>, ErrorView>(
            seq![token_at(TokenKind::EOF, s, s.len() as int)],
        ));
    }
}

proof fn lemma_step_emits_no_eof(s: Seq<char>, i: int)
    requires
        0 <= i < s.len(),
    ensures
        lex_step(s, i) matches Step::Emit(t, _) ==> !(t.kind is EOF),
{
}


// ---------------------------------------------------------------------------
// Lexing known shapes of text
// ---------------------------------------------------------------------------

proof fn lemma_run_end_is(s: Seq<char>, i: int, j: int, p: spec_fn(char) -> bool)
    requires
        0 <= i <= j <= s.len(),
        forall|k: int| i <= k < j ==> p(#[trigger] s[k]),
        j == s.len() || !p(s[j]),
    ensures
        run_end(s, i, p) == j,
    decreases j - i,
{
    if i < j {
        lemma_run_end_is(s, i + 1, j, p);
    }
}

/// A run of whitespace is skipped.
pub proof fn lemma_lex_spaces(s: Seq<char>, i: int, j: int)
    requires
        0 <= i < j <= s.len(),
        forall|k: int| i <= k < j ==> is_ws(#[trigger] s[k]),
        j == s.len() || !is_ws(s[j]),
    ensures
        lex_from(s, i) == lex_from(s, j),
{
    lemma_run_end_is(s, i, j, ws_pred());
}

/// A brace is a token of its own.
pub proof fn lemma_lex_brace(s: Seq<char>, i: int)
    requires
        0 <= i < s.len(),
        s[i] == '{' || s[i] == '}',
    ensures
        lex_from(s, i) == prepend(
            seq![
                token_at(
                    if s[i] == '{' {
                        TokenKind::OpenBrace
                    } else {
                        TokenKind::CloseBrace
                    },
                    s,
                    i,
                ),
            ],
            lex_from(s, i + 1),
        ),
{
}

/// A word followed by whitespace, a brace, or the end is a keyword or an
/// identifier.
pub proof fn lemma_lex_word(s: Seq<char>, i: int, j: int)
    requires
        0 <= i < j <= s.len(),
        is_alpha(s[i]) || s[i] == '_',
        forall|k: int| i <= k < j ==> is_alnum(#[trigger] s[k]) || s[k] == '_',
        j == s.len() || is_ws(s[j]) || s[j] == '{' || s[j] == '}',
    ensures
        lex_from(s, i) == prepend(
            seq![token_at(keyword_kind(s.subrange(i, j)), s, i)],
            lex_from(s, j),
        ),
{
    lemma_run_end_is(s, i, j, word_pred());
}

/// Digits followed by whitespace, a closing brace, or the end are a number.
pub proof fn lemma_lex_number(s: Seq<char>, i: int, j: int)
    requires
        0 <= i < j <= s.len(),
        forall|k: int| i <= k < j ==> is_digit(#[trigger] s[k]),
        j == s.len() || is_ws(s[j]) || s[j] == '}',
    ensures
        lex_from(s, i) == prepend(
            seq![token_at(TokenKind::IntegerLit(s.subrange(i, j)), s, i)],
            lex_from(s, j),
        ),
{
    lemma_run_end_is(s, i, j, digit_pred());
    if i + 1 < s.len() {
        if i + 1 < j {
            assert(is_digit(s[i + 1]));
        }
    }
}

/// A quoted text without quotes or line feeds inside is a string literal.
pub proof fn lemma_lex_string(s: Seq<char>, i: int, j: int)
    requires
        0 <= i < j < s.len(),
        s[i] == '"',
        s[j] == '"',
        forall|k: int| i < k < j ==> #[trigger] s[k] != '"' && s[k] != '\n',
    ensures
        lex_from(s, i) == prepend(
            seq![token_at(TokenKind::StringLit(s.subrange(i + 1, j)), s, i)],
            lex_from(s, j + 1),
        ),
{
    assert(string_end(s, i + 1) == j) by {
        lemma_string_end_is(s, i + 1, j);
    }
}

proof fn lemma_string_end_is(s: Seq<char>, k: int, j: int)
    requires
        0 <= k <= j < s.len(),
        s[j] == '"',
        forall|m: int| k <= m < j ==> #[trigger] s[m] != '"' && s[m] != '\n',
    ensures
        string_end(s, k) == j,
    decreases j - k,
{
    if k < j {
        lemma_string_end_is(s, k + 1, j);
    }
}

/// Tokens `a` then tokens `b` in front of an outcome.
pub proof fn lemma_prepend_prepend(
    a: Seq<TokenView>,
    b: Seq<TokenView>,
    r: Result<Seq<TokenView>, ErrorView>,
)
    ensures
        prepend(a, prepend(b, r)) == prepend(a + b, r),
{
    if let Ok(ts) = r {
        assert(a + (b + ts) =~= a + b + ts);
    }
}

/// The outcome of lexing all of `source`.
pub open spec fn lex(source: Seq<char>) -> Result<Seq<TokenView>, ErrorView> {
    lex_from(source, 0)
}

pub open spec fn lex_result_view(r: Result<Vec<LexToken>, CompileError>) -> Result<
    Seq<TokenView>,
    ErrorView,
> {
    match r {
        Ok(ts) => Ok(tokens_view(ts@)),
        Err(e) => Err(e@),
    }
}

pub open spec fn token_result_matches(
    r: Result<LexToken, CompileError>,
    step: Step,
) -> bool {
    match step {
        Step::Emit(t, _) => r matches Ok(tok) && tok@ == t,
        Step::Fail(e) => r matches Err(err) && err@ == e,
        Step::Skip(_) => false,
    }
}

proof fn lemma_prepend_push(
    toks: Seq<LexToken>,
    tok: LexToken,
    rest: Result<Seq<TokenView>, ErrorView>,
)
    ensures
        prepend(tokens_view(toks), prepend(seq![tok@], rest)) == prepend(
            tokens_view(toks.push(tok)),
            rest,
        ),
{
    assert(tokens_view(toks.push(tok)) =~= tokens_view(toks) + seq![tok@]);
    match rest {
        Ok(ts) => {
            assert(tokens_view(toks) + (seq![tok@] + ts) =~= tokens_view(toks) + seq![tok@] + ts);
        },
        Err(_) => {},
    }
}

// ---------------------------------------------------------------------------
// The lexer
// ---------------------------------------------------------------------------

pub struct Lexer {
    source: Vec<char>,
    raw_source: String,
    pos: usize,
    line: usize,
    col: usize,
}

impl Lexer {
    /// The characters being read.
    pub closed spec fn chars(&self) -> Seq<char> {
        self.source@
    }

    /// How far the lexer has read.
    pub closed spec fn position(&self) -> int {
        self.pos as int
    }

    pub closed spec fn wf(&self) -> bool {
        &&& self.raw_source@ == self.source@
        &&& self.source@.len() < usize::MAX
        &&& self.pos <= self.source@.len()
        &&& self.line == line_at(self.source@, self.pos as int)
        &&& self.col == col_at(self.source@, self.pos as int)
    }

    pub fn new(source: &str) -> (l: Lexer)
        requires
            source@.len() < usize::MAX,
        ensures
            l.wf(),
            l.chars() == source@,
            l.position() == 0,
    {
        let chars = chars_of(source);
        Lexer { source: chars, raw_source: String::from_str(source), pos: 0, line: 1, col: 1 }
    }

    /// The tokens of the whole input, ending with an end-of-file token, or the
    /// first lexical error.
    pub fn tokenize(&mut self) -> (r: Result<Vec<LexToken>, CompileError>)
        requires
            old(self).wf(),
        ensures
            final(self).wf(),
            final(self).chars() == old(self).chars(),
            lex_result_view(r) == lex_from(old(self).chars(), old(self).position()),
    {
        let ghost s = self.source@;
        let ghost start = self.pos as int;
        let mut lex_tokens: Vec<LexToken> = Vec::new();
        while self.pos < self.source.len()
            invariant
                self.wf(),
                self.source@ == s,
                s == old(self).source@,
                start == old(self).pos as int,
                lex_from(s, start) == prepend(tokens_view(lex_tokens@), lex_from(s, self.pos as int)),
            decreases s.len() - self.pos,
        {
            let ghost i = self.pos as int;
            let c = self.source[self.pos];
            proof {
                lemma_step_progress(s, i);
            }
            if char_is_ws(c) {
                self.skip_whitespace();
            } else if c == '#' {
                self.skip_comment();
            } else if c == '{' || c == '}' {
                let kind = if c == '{' { LexTokenType::OpenBrace } else { LexTokenType::CloseBrace };
                let tok = self.make_token(kind, self.line, self.col);
                self.push_token(&mut lex_tokens, tok, Ghost(s), Ghost(start));
                self.advance();
            } else {
                let r = if c == '"' {
                    self.read_string()
                } else if c == '0' && self.pos + 1 < self.source.len() && self.source[self.pos
                    + 1] == 'x' {
                    self.read_address()
                } else if char_is_digit(c) {
                    self.read_number()
                } else if char_is_alpha(c) || c == '_' {
                    self.read_code_word()
                } else {
                    let cs = char_string(c);
                    let msg = concat3("Unexpected character '", cs.as_str(), "'");
                    let src = self.source_line(self.line);
                    Err(CompileError::lexer(msg.as_str(), self.line, self.col, src.as_str()))
                };
                match r {
                    Ok(tok) => {
                        proof {
                            lemma_prepend_push(lex_tokens@, tok, lex_from(s, self.pos as int));
                        }
                        lex_tokens.push(tok);
                    },
                    Err(e) => {
                        return Err(e);
                    },
                }
            }
        }
        let eof = self.make_token(LexTokenType::EOF, self.line, self.col);
        proof {
            assert(tokens_view(lex_tokens@.push(eof)) =~= tokens_view(lex_tokens@) + seq![eof@]);
        }
        lex_tokens.push(eof);
        Ok(lex_tokens)
    }

    fn push_token(
        &self,
        toks: &mut Vec<LexToken>,
        tok: LexToken,
        Ghost(s): Ghost<Seq<char>>,
        Ghost(start): Ghost<int>,
    )
        requires
            self.wf(),
            self.source@ == s,
            self.pos < s.len(),
            lex_step(s, self.pos as int) == Step::Emit(tok@, self.pos + 1),
            lex_from(s, start) == prepend(tokens_view(old(toks)@), lex_from(s, self.pos as int)),
        ensures
            final(toks)@ == old(toks)@.push(tok),
            lex_from(s, start) == prepend(tokens_view(final(toks)@), lex_from(s, self.pos + 1)),
    {
        proof {
            lemma_prepend_push(old(toks)@, tok, lex_from(s, self.pos + 1));
        }
        toks.push(tok);
    }

    fn source_line(&self, line: usize) -> (r: String)
        ensures
            r@ == source_line_of(self.raw_source@, line as nat),
    {
        get_source_line(self.raw_source.as_str(), line)
    }

    fn make_token(&self, token_type: LexTokenType, line: usize, col: usize) -> (t: LexToken)
        ensures
            t@ == (TokenView { kind: token_type@, line: line as nat, col: col as nat }),
    {
        LexToken { token_type, line, col }
    }

    fn current_char(&self) -> (r: Option<char>)
        ensures
            r == (if self.pos < self.source@.len() {
                Some(self.source@[self.pos as int])
            } else {
                None::<char>
            }),
    {
        if self.pos < self.source.len() {
            Some(self.source[self.pos])
        } else {
            None
        }
    }

    fn advance(&mut self)
        requires
            old(self).wf(),
            old(self).pos < old(self).source@.len(),
        ensures
            final(self).wf(),
            final(self).source@ == old(self).source@,
            final(self).pos == old(self).pos + 1,
    {
        proof {
            lemma_position_bounds(self.source@, self.pos as int);
        }
        if self.source[self.pos] == '\n' {
            self.line = self.line + 1;
            self.col = 1;
        } else {
            self.col = self.col + 1;
        }
        self.pos = self.pos + 1;
    }

    fn skip_whitespace(&mut self)
        requires
            old(self).wf(),
            old(self).pos < old(self).source@.len(),
        ensures
            final(self).wf(),
            final(self).source@ == old(self).source@,
            final(self).pos == run_end(old(self).source@, old(self).pos as int, ws_pred()),
    {
        let ghost s = self.source@;
        let ghost start = self.pos as int;
        proof {
            lemma_run_end(s, start, ws_pred());
        }
        while self.pos < self.source.len() && char_is_ws(self.source[self.pos])
            invariant
                self.wf(),
                self.source@ == s,
                start <= self.pos,
                run_end(s, self.pos as int, ws_pred()) == run_end(s, start, ws_pred()),
            decreases s.len() - self.pos,
        {
            self.advance();
        }
    }

    fn skip_comment(&mut self)
        requires
            old(self).wf(),
            old(self).pos < old(self).source@.len(),
        ensures
            final(self).wf(),
            final(self).source@ == old(self).source@,
            final(self).pos == comment_end(old(self).source@, old(self).pos as int),
    {
        let ghost s = self.source@;
        let ghost start = self.pos as int;
        proof {
            crate::errors::lemma_line_end_bounds(s, start);
        }
        while self.pos < self.source.len() && self.source[self.pos] != '\n'
            invariant
                self.wf(),
                self.source@ == s,
                start <= self.pos,
                line_end(s, self.pos as int) == line_end(s, start),
            decreases s.len() - self.pos,
        {
            self.advance();
        }
        if self.pos < self.source.len() {
            self.advance();
        }
    }

    fn read_number(&mut self) -> (r: Result<LexToken, CompileError>)
        requires
            old(self).wf(),
            old(self).pos < old(self).source@.len(),
            is_digit(old(self).source@[old(self).pos as int]),
        ensures
            final(self).wf(),
            final(self).source@ == old(self).source@,
            token_result_matches(r, number_step(old(self).source@, old(self).pos as int)),
            r is Ok ==> (number_step(old(self).source@, old(self).pos as int) matches Step::Emit(
                _,
                j,
            ) && final(self).pos == j),
    {
        let ghost s = self.source@;
        let start = self.pos;
        let start_line = self.line;
        let start_col = self.col;
        proof {
            lemma_run_end(s, start as int, digit_pred());
        }
        let mut num: Vec<char> = Vec::new();
        while self.pos < self.source.len() && char_is_digit(self.source[self.pos])
            invariant
                self.wf(),
                self.source@ == s,
                start <= self.pos,
                run_end(s, self.pos as int, digit_pred()) == run_end(s, start as int, digit_pred()),
                num@ == s.subrange(start as int, self.pos as int),
            decreases s.len() - self.pos,
        {
            num.push(self.source[self.pos]);
            self.advance();
            assert(num@ =~= s.subrange(start as int, self.pos as int));
        }
        if self.pos < self.source.len() {
            let c = self.source[self.pos];
            if !(char_is_ws(c) || c == '}') {
                let num_str = string_from_chars(num.as_slice());
                let cs = char_string(c);
                let mut msg = String::from_str("Invalid number literal '");
                msg.append(num_str.as_str());
                msg.append(cs.as_str());
                msg.append("'");
                let src = self.source_line(start_line);
                return Err(CompileError::lexer(msg.as_str(), start_line, start_col, src.as_str()));
            }
        }
        let num_str = string_from_chars(num.as_slice());
        Ok(self.make_token(LexTokenType::IntegerLit(num_str), start_line, start_col))
    }

    fn read_code_word(&mut self) -> (r: Result<LexToken, CompileError>)
        requires
            old(self).wf(),
            old(self).pos < old(self).source@.len(),
            is_alpha(old(self).source@[old(self).pos as int]) || old(self).source@[old(
                self,
            ).pos as int] == '_',
        ensures
            final(self).wf(),
            final(self).source@ == old(self).source@,
            token_result_matches(r, word_step(old(self).source@, old(self).pos as int)),
            r is Ok ==> (word_step(old(self).source@, old(self).pos as int) matches Step::Emit(
                _,
                j,
            ) && final(self).pos == j),
    {
        let ghost s = self.source@;
        let start = self.pos;
        let start_line = self.line;
        let start_col = self.col;
        proof {
            lemma_run_end(s, start as int, word_pred());
        }
        let mut word: Vec<char> = Vec::new();
        while self.pos < self.source.len() && (char_is_alnum(self.source[self.pos])
            || self.source[self.pos] == '_')
            invariant
                self.wf(),
                self.source@ == s,
                start <= self.pos,
                run_end(s, self.pos as int, word_pred()) == run_end(s, start as int, word_pred()),
                word@ == s.subrange(start as int, self.pos as int),
            decreases s.len() - self.pos,
        {
            word.push(self.source[self.pos]);
            self.advance();
            assert(word@ =~= s.subrange(start as int, self.pos as int));
        }
        if self.pos < self.source.len() {
            let c = self.source[self.pos];
            if !(char_is_ws(c) || c == '{' || c == '}') {
                let word_str = string_from_chars(word.as_slice());
                let cs = char_string(c);
                let mut msg = String::from_str("Invalid character '");
                msg.append(cs.as_str());
                msg.append("' in identifier '");
                msg.append(word_str.as_str());
                msg.append("'");
                let src = self.source_line(start_line);
                return Err(CompileError::lexer(msg.as_str(), start_line, start_col, src.as_str()));
            }
        }
        let token_type = keyword_token(&word);
        Ok(self.make_token(token_type, start_line, start_col))
    }

    fn read_string(&mut self) -> (r: Result<LexToken, CompileError>)
        requires
            old(self).wf(),
            old(self).pos < old(self).source@.len(),
            old(self).source@[old(self).pos as int] == '"',
        ensures
            final(self).wf(),
            final(self).source@ == old(self).source@,
            token_result_matches(r, string_step(old(self).source@, old(self).pos as int)),
            r is Ok ==> (string_step(old(self).source@, old(self).pos as int) matches Step::Emit(
                _,
                j,
            ) && final(self).pos == j),
    {
        let ghost s = self.source@;
        let start_line = self.line;
        let start_col = self.col;
        self.advance();
        let body = self.pos;
        proof {
            lemma_string_end(s, body as int);
        }
        let mut text: Vec<char> = Vec::new();
        loop
            invariant
                self.wf(),
                self.source@ == s,
                s == old(self).source@,
                body == old(self).pos + 1,
                start_line == line_at(s, old(self).pos as int),
                start_col == col_at(s, old(self).pos as int),
                body <= self.pos,
                string_end(s, self.pos as int) == string_end(s, body as int),
                text@ == s.subrange(body as int, self.pos as int),
            decreases s.len() - self.pos,
        {
            if self.pos >= self.source.len() || self.source[self.pos] == '\n' {
                let src = self.source_line(start_line);
                return Err(
                    CompileError::lexer(
                        "Unterminated string literal — missing closing '\"'",
                        start_line,
                        start_col,
                        src.as_str(),
                    ),
                );
            }
            let c = self.source[self.pos];
            if c == '"' {
                self.advance();
                let value = string_from_chars(text.as_slice());
                return Ok(self.make_token(LexTokenType::StringLit(value), start_line, start_col));
            }
            text.push(c);
            self.advance();
            assert(text@ =~= s.subrange(body as int, self.pos as int));
        }
    }

    fn read_address(&mut self) -> (r: Result<LexToken, CompileError>)
        requires
            old(self).wf(),
            old(self).pos + 1 < old(self).source@.len(),
            old(self).source@[old(self).pos as int] == '0',
            old(self).source@[old(self).pos + 1] == 'x',
        ensures
            final(self).wf(),
            final(self).source@ == old(self).source@,
            token_result_matches(r, address_step(old(self).source@, old(self).pos as int)),
            r is Ok ==> (address_step(old(self).source@, old(self).pos as int) matches Step::Emit(
                _,
                j,
            ) && final(self).pos == j),
    {
        let ghost s = self.source@;
        let start_line = self.line;
        let start_col = self.col;
        self.advance();
        self.advance();
        let body = self.pos;
        proof {
            lemma_run_end(s, body as int, hex_pred());
        }
        let mut hex: Vec<char> = Vec::new();
        while self.pos < self.source.len() && char_is_hex(self.source[self.pos])
            invariant
                self.wf(),
                self.source@ == s,
                body <= self.pos,
                run_end(s, self.pos as int, hex_pred()) == run_end(s, body as int, hex_pred()),
                hex@ == s.subrange(body as int, self.pos as int),
            decreases s.len() - self.pos,
        {
            hex.push(self.source[self.pos]);
            self.advance();
            assert(hex@ =~= s.subrange(body as int, self.pos as int));
        }
        if self.pos < self.source.len() {
            let c = self.source[self.pos];
            if !(char_is_ws(c) || c == '}') {
                let cs = char_string(c);
                let msg = concat3("Invalid character '", cs.as_str(), "' in address");
                let src = self.source_line(start_line);
                return Err(CompileError::lexer(msg.as_str(), start_line, start_col, src.as_str()));
            }
        }
        if hex.len() != 40 {
            let n = decimal_string(hex.len() as u64);
            let msg = concat3("Address must be 40 hex characters (got ", n.as_str(), ")");
            let src = self.source_line(start_line);
            return Err(CompileError::lexer(msg.as_str(), start_line, start_col, src.as_str()));
        }
        let bytes = decode_address(&hex);
        let hex_str = string_from_chars(hex.as_slice());
        let mut raw = String::from_str("0x");
        raw.append(hex_str.as_str());
        Ok(self.make_token(LexTokenType::AddressLit { bytes, raw }, start_line, start_col))
    }
}

/// Whether the characters `v` spell the literal `lit`.
fn chars_equal(v: &Vec<char>, lit: &str) -> (r: bool)
    ensures
        r == (v@ == lit@),
{
    let w = chars_of(lit);
    if v.len() != w.len() {
        return false;
    }
    let mut i: usize = 0;
    while i < v.len()
        invariant
            v@.len() == w@.len(),
            w@ == lit@,
            i <= v@.len(),
            forall|k: int| 0 <= k < i ==> v@[k] == w@[k],
        decreases v@.len() - i,
    {
        if v[i] != w[i] {
            return false;
        }
        i = i + 1;
    }
    assert(v@ =~= w@);
    true
}

fn keyword_token(word: &Vec<char>) -> (t: LexTokenType)
    ensures
        t@ == keyword_kind(word@),
{
    if chars_equal(word, "contract") {
        LexTokenType::Contract
    } else if chars_equal(word, "symbol") {
        LexTokenType::Symbol
    } else if chars_equal(word, "decimals") {
        LexTokenType::Decimals
    } else if chars_equal(word, "supply") {
        LexTokenType::Supply
    } else if chars_equal(word, "mintable") {
        LexTokenType::Mintable
    } else if chars_equal(word, "burnable") {
        LexTokenType::Burnable
    } else if chars_equal(word, "capped") {
        LexTokenType::Capped
    } else if chars_equal(word, "owner") {
        LexTokenType::Owner
    } else {
        LexTokenType::Identifier(string_from_chars(word.as_slice()))
    }
}

/// The 20 bytes spelled by 40 hexadecimal digits.
fn decode_address(hex: &Vec<char>) -> (bytes: [u8; 20])
    requires
        hex@.len() == 40,
        forall|k: int| 0 <= k < 40 ==> is_hex(#[trigger] hex@[k]),
    ensures
        bytes@ == hex_bytes(hex@),
{
    let mut bytes = [0u8; 20];
    let mut i: usize = 0;
    while i < 20
        invariant
            i <= 20,
            hex@.len() == 40,
            forall|k: int| 0 <= k < 40 ==> is_hex(#[trigger] hex@[k]),
            forall|k: int| 0 <= k < i ==> bytes@[k] == #[trigger] hex_bytes(hex@)[k],
        decreases 20 - i,
    {
        let hi = hex_value(hex[2 * i]);
        let lo = hex_value(hex[2 * i + 1]);
        bytes[i] = hi * 16 + lo;
        i = i + 1;
    }
    assert(bytes@ =~= hex_bytes(hex@));
    bytes
}

} // verus!
