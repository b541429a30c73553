//! The front half of the compiler: lex, parse and analyze a source text.
use vstd::prelude::*;
use crate::analyzer::{analysis_errors, analysis_warnings, analyze, errors_view, AnalyzerResult};
use crate::ast::ContractNode;
use crate::errors::CompileError;
use crate::lexer::{lemma_lex_ends_with_eof, lex, lex_result_view, Lexer};
use crate::lex_tokens::tokens_view;
use crate::parser::{has_eof_from, lemma_parse_defined, parse_from, parse_result_view, Parser};

verus! {

/// A source text that lexed and parsed, with what the analysis found.
#[derive(Debug)]
pub struct Checked {
    pub token_count: usize,
    pub contract: ContractNode,
    pub analysis: AnalyzerResult,
}

/// Why a source text did not check: a lexical error, or a syntax error in
/// tokens that lexed.
#[derive(Debug)]
pub enum CheckError {
    Lex(CompileError),
    Parse { token_count: usize, error: CompileError },
}

/// Lexes, parses and analyzes `source`. A lexical or syntax error ends the
/// check; the analysis reports every error and warning it finds.
pub fn check_source(source: &str) -> (r: Result<Checked, CheckError>)
    requires
        source@.len() < usize::MAX,
    ensures
        match lex(source@) {
            Err(e) => r matches Err(CheckError::Lex(x)) && x@ == e,
            Ok(ts) => match parse_from(ts, source@, 0) {
                Some(Err(e)) => r matches Err(CheckError::Parse { token_count, error })
                    && token_count == ts.len() && error@ == e,
                Some(Ok(c)) => r matches Ok(k) && {
                    &&& k.token_count == ts.len()
                    &&& k.contract@ == c
                    &&& errors_view(k.analysis.errors@) == analysis_errors(c, source@)
                    &&& errors_view(k.analysis.warnings@) == analysis_warnings(c, source@)
                },
                None => false,
            },
        },
{
    let mut lexer = Lexer::new(source);
    let tokens = match lexer.tokenize() {
        Ok(t) => t,
        Err(e) => {
            return Err(CheckError::Lex(e));
        },
    };
    let token_count = tokens.len();
    let ghost ts = tokens_view(tokens@);
    proof {
        lemma_lex_ends_with_eof(source@, 0);
        assert(ts[ts.len() - 1].kind is EOF);
        assert(has_eof_from(ts, 0));
        lemma_parse_defined(ts, source@, 0);
    }
    let mut parser = Parser::new(tokens, source);
    let contract = match parser.parse() {
        Ok(c) => c,
        Err(e) => {
            return Err(CheckError::Parse { token_count, error: e });
        },
    };
    let analysis = analyze(&contract, source);
    Ok(Checked { token_count, contract, analysis })
}

} // verus!
