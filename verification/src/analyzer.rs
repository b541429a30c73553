//! Checks a parsed contract: required fields, value ranges, and fields that
//! only make sense together. Errors stop compilation; warnings do not.
use vstd::prelude::*;
use vstd::string::*;
use crate::ast::{ContractNode, ContractView, Pos};
use crate::errors::{error_view, get_source_line, source_line_of, CompileError, ErrorKind, ErrorView};
use crate::text::{chars_of, concat3, decimal, decimal_string};

verus! {

#[derive(Debug)]
pub struct AnalyzerResult {
    pub errors: Vec<CompileError>,
    pub warnings: Vec<CompileError>,
}

pub open spec fn errors_view(v: Seq<CompileError>) -> Seq<ErrorView> {
    v.map_values(|e: CompileError| e@)
}

/// A diagnostic of kind `kind` at `at`, with the text of its line.
pub open spec fn diagnostic_at(
    kind: ErrorKind,
    message: Seq<char>,
    at: Pos,
    src: Seq<char>,
) -> ErrorView {
    error_view(kind, message, at.line, at.col, source_line_of(src, at.line))
}

pub open spec fn supply_errors(c: ContractView, src: Seq<char>) -> Seq<ErrorView> {
    match c.supply {
        None => seq![
            diagnostic_at(
                ErrorKind::SemanticError,
                "Missing required field 'supply'"@,
                c.name_position,
                src,
            ),
        ],
        Some((v, at)) => if v == 0 {
            seq![
                diagnostic_at(
                    ErrorKind::SemanticError,
                    "Supply must be greater than 0"@,
                    at,
                    src,
                ),
            ]
        } else {
            seq![]
        },
    }
}

pub open spec fn decimals_range_errors(c: ContractView, src: Seq<char>) -> Seq<ErrorView> {
    match c.decimals {
        Some((v, at)) => if v > 77 {
            seq![
                diagnostic_at(
                    ErrorKind::SemanticError,
                    "Decimals must be between 0 and 77, got "@ + decimal(v as nat),
                    at,
                    src,
                ),
            ]
        } else {
            seq![]
        },
        None => seq![],
    }
}

pub open spec fn capped_mintable_errors(c: ContractView, src: Seq<char>) -> Seq<ErrorView> {
    match c.capped {
        Some((_, at)) => if c.mintable is None {
            seq![
                diagnostic_at(
                    ErrorKind::SemanticError,
                    "'capped' requires 'mintable' — a cap only applies if new tokens can be minted"@,
                    at,
                    src,
                ),
            ]
        } else {
            seq![]
        },
        None => seq![],
    }
}

pub open spec fn capped_supply_errors(c: ContractView, src: Seq<char>) -> Seq<ErrorView> {
    match (c.capped, c.supply) {
        (Some((cap, at)), Some((supply, _))) => if cap < supply {
            seq![
                diagnostic_at(
                    ErrorKind::SemanticError,
                    "Cap ("@ + decimal(cap as nat) + ") is less than initial supply ("@ + decimal(
                        supply as nat,
                    ) + ")"@,
                    at,
                    src,
                ),
            ]
        } else {
            seq![]
        },
        _ => seq![],
    }
}

pub open spec fn decimals_warnings(c: ContractView, src: Seq<char>) -> Seq<ErrorView> {
    match c.decimals {
        Some((v, at)) => if v != 18 {
            seq![
                diagnostic_at(
                    ErrorKind::Warning,
                    "Decimals is set to "@ + decimal(v as nat) + ". Most tokens use 18"@,
                    at,
                    src,
                ),
            ]
        } else {
            seq![]
        },
        None => seq![],
    }
}

/// A symbol longer than five characters is unusual.
pub open spec fn symbol_warnings(c: ContractView, src: Seq<char>) -> Seq<ErrorView> {
    match c.symbol {
        Some((s, at)) => if s.len() > 5 {
            seq![
                diagnostic_at(
                    ErrorKind::Warning,
                    "Symbol '"@ + s + "' is unusually long. Most tokens use 3-5 characters"@,
                    at,
                    src,
                ),
            ]
        } else {
            seq![]
        },
        None => seq![],
    }
}

/// The errors of a contract, in the order they are checked.
pub open spec fn analysis_errors(c: ContractView, src: Seq<char>) -> Seq<ErrorView> {
    supply_errors(c, src) + decimals_range_errors(c, src) + capped_mintable_errors(c, src)
        + capped_supply_errors(c, src)
}

/// The warnings of a contract, in the order they are checked.
pub open spec fn analysis_warnings(c: ContractView, src: Seq<char>) -> Seq<ErrorView> {
    decimals_warnings(c, src) + symbol_warnings(c, src)
}

/// What the analysis accepts: a positive supply, decimals of at most 77, a cap
/// only on a mintable token, and a cap no smaller than the supply.
pub open spec fn contract_is_valid(c: ContractView) -> bool {
    &&& c.supply matches Some((supply, _)) && supply > 0
    &&& c.decimals matches Some((d, _)) ==> d <= 77
    &&& c.capped is Some ==> c.mintable is Some
    &&& c.capped matches Some((cap, _)) ==> cap >= (c.supply->0).0
}

/// The analysis reports no error exactly when the contract is valid, and a
/// valid contract has its supply; errors are semantic errors and warnings are
/// warnings.
pub proof fn lemma_analysis_accepts_valid(c: ContractView, src: Seq<char>)
    ensures
        analysis_errors(c, src).len() == 0 <==> contract_is_valid(c),
        analysis_errors(c, src).len() == 0 ==> c.supply is Some,
        forall|i: int|
            0 <= i < analysis_errors(c, src).len() ==> (#[trigger] analysis_errors(c, src)[i]).kind
                == ErrorKind::SemanticError,
        forall|i: int|
            0 <= i < analysis_warnings(c, src).len() ==> (#[trigger] analysis_warnings(c, src)[i]).kind
                == ErrorKind::Warning,
{
    let a = supply_errors(c, src);
    let b = decimals_range_errors(c, src);
    let d = capped_mintable_errors(c, src);
    let e = capped_supply_errors(c, src);
    assert(analysis_errors(c, src).len() == a.len() + b.len() + d.len() + e.len());
    assert forall|i: int| 0 <= i < analysis_errors(c, src).len() implies (
    #[trigger] analysis_errors(c, src)[i]).kind == ErrorKind::SemanticError by {
        let all = analysis_errors(c, src);
        if i < a.len() {
            assert(all[i] == a[i]);
        } else if i < a.len() + b.len() {
            assert(all[i] == b[i - a.len()]);
        } else if i < a.len() + b.len() + d.len() {
            assert(all[i] == d[i - a.len() - b.len()]);
        } else {
            assert(all[i] == e[i - a.len() - b.len() - d.len()]);
        }
    }
    let w1 = decimals_warnings(c, src);
    let w2 = symbol_warnings(c, src);
    assert forall|i: int| 0 <= i < analysis_warnings(c, src).len() implies (
    #[trigger] analysis_warnings(c, src)[i]).kind == ErrorKind::Warning by {
        let all = analysis_warnings(c, src);
        if i < w1.len() {
            assert(all[i] == w1[i]);
        } else {
            assert(all[i] == w2[i - w1.len()]);
        }
    }
}

/// Checks `contract`; `source` supplies the text of the lines the diagnostics
/// point at.
pub fn analyze(contract: &ContractNode, source: &str) -> (r: AnalyzerResult)
    ensures
        errors_view(r.errors@) == analysis_errors(contract@, source@),
        errors_view(r.warnings@) == analysis_warnings(contract@, source@),
{
    let mut errors: Vec<CompileError> = Vec::new();
    let mut warnings: Vec<CompileError> = Vec::new();
    proof {
        assert(errors_view(errors@) =~= Seq::<ErrorView>::empty());
        assert(errors_view(warnings@) =~= Seq::<ErrorView>::empty());
    }
    check_supply(contract, source, &mut errors);
    check_decimals_range(contract, source, &mut errors);
    check_capped_requires_mintable(contract, source, &mut errors);
    check_capped_gte_supply(contract, source, &mut errors);
    check_decimals_unusual(contract, source, &mut warnings);
    check_symbol_length(contract, source, &mut warnings);
    proof {
        let c = contract@;
        let s = source@;
        assert(analysis_errors(c, s) =~= Seq::<ErrorView>::empty() + supply_errors(c, s)
            + decimals_range_errors(c, s) + capped_mintable_errors(c, s) + capped_supply_errors(
            c,
            s,
        ));
        assert(analysis_warnings(c, s) =~= Seq::<ErrorView>::empty() + decimals_warnings(c, s)
            + symbol_warnings(c, s));
    }
    AnalyzerResult { errors, warnings }
}

/// Appends `e` to `out`.
fn report(out: &mut Vec<CompileError>, e: CompileError)
    ensures
        errors_view(final(out)@) == errors_view(old(out)@) + seq![e@],
{
    proof {
        assert(errors_view(old(out)@.push(e)) =~= errors_view(old(out)@) + seq![e@]);
    }
    out.push(e);
}

/// Reports a missing supply at the contract name, or a zero supply at the
/// field; keeps what `errors` held.
pub fn check_supply(contract: &ContractNode, source: &str, errors: &mut Vec<CompileError>)
    ensures
        errors_view(final(errors)@) == errors_view(old(errors)@) + supply_errors(
            contract@,
            source@,
        ),
{
    match &contract.supply {
        None => {
            let src = get_source_line(source, contract.name_position.line);
            report(
                errors,
                CompileError::semantic(
                    "Missing required field 'supply'",
                    contract.name_position.line,
                    contract.name_position.col,
                    src.as_str(),
                ),
            );
        },
        Some(field) => {
            if field.value == 0 {
                let src = get_source_line(source, field.position.line);
                report(
                    errors,
                    CompileError::semantic(
                        "Supply must be greater than 0",
                        field.position.line,
                        field.position.col,
                        src.as_str(),
                    ),
                );
            } else {
                assert(errors_view(errors@) =~= errors_view(errors@) + Seq::<ErrorView>::empty());
            }
        },
    }
}

/// Reports decimals above 77 at the field; keeps what `errors` held.
pub fn check_decimals_range(contract: &ContractNode, source: &str, errors: &mut Vec<CompileError>)
    ensures
        errors_view(final(errors)@) == errors_view(old(errors)@) + decimals_range_errors(
            contract@,
            source@,
        ),
{
    if let Some(field) = &contract.decimals {
        if field.value > 77 {
            let n = decimal_string(field.value);
            let mut msg = String::from_str("Decimals must be between 0 and 77, got ");
            msg.append(n.as_str());
            let src = get_source_line(source, field.position.line);
            report(
                errors,
                CompileError::semantic(
                    msg.as_str(),
                    field.position.line,
                    field.position.col,
                    src.as_str(),
                ),
            );
            return ;
        }
    }
    assert(errors_view(errors@) =~= errors_view(errors@) + Seq::<ErrorView>::empty());
}

/// Reports a cap on a token that is not mintable, at the cap; keeps what
/// `errors` held.
pub fn check_capped_requires_mintable(
    contract: &ContractNode,
    source: &str,
    errors: &mut Vec<CompileError>,
)
    ensures
        errors_view(final(errors)@) == errors_view(old(errors)@) + capped_mintable_errors(
            contract@,
            source@,
        ),
{
    if let Some(capped) = &contract.capped {
        if contract.mintable.is_none() {
            let pos = &capped.position;
            let src = get_source_line(source, pos.line);
            report(
                errors,
                CompileError::semantic(
                    "'capped' requires 'mintable' — a cap only applies if new tokens can be minted",
                    pos.line,
                    pos.col,
                    src.as_str(),
                ),
            );
            return ;
        }
    }
    assert(errors_view(errors@) =~= errors_view(errors@) + Seq::<ErrorView>::empty());
}

/// Reports a cap below the supply, at the cap; keeps what `errors` held.
pub fn check_capped_gte_supply(contract: &ContractNode, source: &str, errors: &mut Vec<CompileError>)
    ensures
        errors_view(final(errors)@) == errors_view(old(errors)@) + capped_supply_errors(
            contract@,
            source@,
        ),
{
    if let (Some(capped), Some(supply)) = (&contract.capped, &contract.supply) {
        if capped.value < supply.value {
            let cap_str = decimal_string(capped.value);
            let supply_str = decimal_string(supply.value);
            let mut msg = String::from_str("Cap (");
            msg.append(cap_str.as_str());
            msg.append(") is less than initial supply (");
            msg.append(supply_str.as_str());
            msg.append(")");
            let src = get_source_line(source, capped.position.line);
            report(
                errors,
                CompileError::semantic(
                    msg.as_str(),
                    capped.position.line,
                    capped.position.col,
                    src.as_str(),
                ),
            );
            return ;
        }
    }
    assert(errors_view(errors@) =~= errors_view(errors@) + Seq::<ErrorView>::empty());
}

/// Warns about decimals other than 18, at the field; keeps what `warnings`
/// held.
pub fn check_decimals_unusual(contract: &ContractNode, source: &str, warnings: &mut Vec<CompileError>)
    ensures
        errors_view(final(warnings)@) == errors_view(old(warnings)@) + decimals_warnings(
            contract@,
            source@,
        ),
{
    if let Some(field) = &contract.decimals {
        if field.value != 18 {
            let n = decimal_string(field.value);
            let msg = concat3("Decimals is set to ", n.as_str(), ". Most tokens use 18");
            let src = get_source_line(source, field.position.line);
            report(
                warnings,
                CompileError::warning(
                    msg.as_str(),
                    field.position.line,
                    field.position.col,
                    src.as_str(),
                ),
            );
            return ;
        }
    }
    assert(errors_view(warnings@) =~= errors_view(warnings@) + Seq::<ErrorView>::empty());
}

/// Warns about a symbol longer than five characters, at the field; keeps
/// what `warnings` held.
pub fn check_symbol_length(contract: &ContractNode, source: &str, warnings: &mut Vec<CompileError>)
    ensures
        errors_view(final(warnings)@) == errors_view(old(warnings)@) + symbol_warnings(
            contract@,
            source@,
        ),
{
    if let Some(field) = &contract.symbol {
        if chars_of(field.value.as_str()).len() > 5 {
            let msg = concat3(
                "Symbol '",
                field.value.as_str(),
                "' is unusually long. Most tokens use 3-5 characters",
            );
            let src = get_source_line(source, field.position.line);
            report(
                warnings,
                CompileError::warning(
                    msg.as_str(),
                    field.position.line,
                    field.position.col,
                    src.as_str(),
                ),
            );
            return ;
        }
    }
    assert(errors_view(warnings@) =~= errors_view(warnings@) + Seq::<ErrorView>::empty());
}

/// The analysis warns about decimals exactly when they are declared and are
/// not 18, and about a symbol exactly when it has more than five characters;
/// the decimals warning comes first, names the declared value and stands at
/// the field.
pub proof fn lemma_warnings_exactly(c: ContractView, src: Seq<char>)
    ensures
        ({
            let odd_decimals = match c.decimals {
                Some((d, _)) => d != 18,
                None => false,
            };
            let long_symbol = match c.symbol {
                Some((s, _)) => s.len() > 5,
                None => false,
            };
            &&& analysis_warnings(c, src).len() == (if odd_decimals { 1int } else { 0int }) + (
            if long_symbol {
                1int
            } else {
                0int
            })
            &&& forall|i: int|
                0 <= i < analysis_warnings(c, src).len() ==> (#[trigger] analysis_warnings(
                    c,
                    src,
                )[i]).kind == ErrorKind::Warning
            &&& c.decimals matches Some((d, at)) ==> (d != 18 ==> analysis_warnings(c, src)[0]
                == error_view(
                ErrorKind::Warning,
                "Decimals is set to "@ + decimal(d as nat) + ". Most tokens use 18"@,
                at.line,
                at.col,
                source_line_of(src, at.line),
            ))
        }),
{
    lemma_analysis_accepts_valid(c, src);
}

} // verus!
