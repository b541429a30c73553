use toke::analyzer::{analyze, check_capped_gte_supply};
use toke::ast::{ContractNode, IntField, Position, StringField};
use toke::codegen::constructor::emit_constructor;
use toke::codegen::dispatcher::emit_dispatcher;
use toke::codegen::emitter::Emitter;
use toke::codegen::functions::{emit_balance_of, emit_decimals, emit_name, emit_total_supply};
use toke::codegen::opcodes;
use toke::codegen::utils::{keccak256, push_u64, push_value, selector};
use toke::codegen::{compile, generate, hex_output};
use toke::errors::{get_source_line, suggest_closest, CompileError, ErrorKind};
use toke::lex_tokens::LexTokenType;
use toke::lexer::Lexer;
use toke::parser::Parser;
use toke::pipeline::{check_source, CheckError};
use toke::scaffold::{
    default_symbol, init_file_name, render_contract_source, validate_cap, validate_contract_name,
    validate_decimals, validate_supply,
};

fn lex_err(source: &str) -> CompileError {
    Lexer::new(source).tokenize().unwrap_err()
}

fn parse_err(source: &str) -> CompileError {
    let tokens = Lexer::new(source).tokenize().unwrap();
    Parser::new(tokens, source).parse().unwrap_err()
}

fn contract_with_supply(supply: u64) -> ContractNode {
    ContractNode {
        name: "T".to_string(),
        name_position: Position { line: 1, col: 10 },
        symbol: None,
        decimals: None,
        supply: Some(IntField { value: supply, position: Position { line: 2, col: 3 } }),
        mintable: None,
        burnable: None,
        capped: None,
        owner: None,
    }
}

// --- lexer ---

#[test]
fn lexer_positions_follow_lines_and_columns() {
    let tokens = Lexer::new("contract X {\n  supply 5\n}").tokenize().unwrap();
    let at: Vec<(usize, usize)> = tokens.iter().map(|t| (t.line, t.col)).collect();
    assert_eq!(at, vec![(1, 1), (1, 10), (1, 12), (2, 3), (2, 10), (3, 1), (3, 2)]);
}

#[test]
fn lexer_address_bytes_and_raw_text() {
    let tokens = Lexer::new("0x00ff10aB000000000000000000000000000000Cd").tokenize().unwrap();
    match &tokens[0].token_type {
        LexTokenType::AddressLit { bytes, raw } => {
            assert_eq!(bytes[0], 0x00);
            assert_eq!(bytes[1], 0xff);
            assert_eq!(bytes[2], 0x10);
            assert_eq!(bytes[3], 0xab);
            assert_eq!(bytes[19], 0xcd);
            assert_eq!(raw, "0x00ff10aB000000000000000000000000000000Cd");
        }
        _ => panic!("expected an address"),
    }
}

#[test]
fn lexer_invalid_number_message() {
    let err = lex_err("contract X { supply 123abc }");
    assert_eq!(err.kind, ErrorKind::LexerError);
    assert_eq!(err.message, "Invalid number literal '123a'");
    assert_eq!((err.line, err.col), (1, 21));
    assert_eq!(err.source_line, "contract X { supply 123abc }");
}

#[test]
fn lexer_unterminated_string_message() {
    let err = lex_err("contract X {\n symbol \"MTK\n}");
    assert_eq!(err.message, "Unterminated string literal — missing closing '\"'");
    assert_eq!((err.line, err.col), (2, 9));
    assert_eq!(err.source_line, " symbol \"MTK");
}

#[test]
fn lexer_unexpected_character_message() {
    let err = lex_err("contract X { @ }");
    assert_eq!(err.message, "Unexpected character '@'");
    assert_eq!((err.line, err.col), (1, 14));
}

#[test]
fn lexer_identifier_with_bad_character() {
    let err = lex_err("contract ab-c { }");
    assert_eq!(err.message, "Invalid character '-' in identifier 'ab'");
    assert_eq!((err.line, err.col), (1, 10));
}

#[test]
fn lexer_address_errors() {
    let short = lex_err("contract X { owner 0x1234 }");
    assert_eq!(short.message, "Address must be 40 hex characters (got 4)");
    let bad = lex_err("contract X { owner 0x12g4 }");
    assert_eq!(bad.message, "Invalid character 'g' in address");
}

#[test]
fn lexer_comment_at_end_and_form_feed() {
    let tokens = Lexer::new("contract\x0CX # trailing").tokenize().unwrap();
    assert_eq!(tokens.len(), 3);
    assert!(matches!(tokens[2].token_type, LexTokenType::EOF));
}

#[test]
fn lexer_keywords_and_identifiers() {
    let tokens = Lexer::new("owner owners _x").tokenize().unwrap();
    assert!(matches!(tokens[0].token_type, LexTokenType::Owner));
    assert!(matches!(tokens[1].token_type, LexTokenType::Identifier(ref s) if s == "owners"));
    assert!(matches!(tokens[2].token_type, LexTokenType::Identifier(ref s) if s == "_x"));
}

#[test]
fn lexer_empty_input_is_only_eof() {
    let tokens = Lexer::new("").tokenize().unwrap();
    assert_eq!(tokens.len(), 1);
    assert!(matches!(tokens[0].token_type, LexTokenType::EOF));
    assert_eq!((tokens[0].line, tokens[0].col), (1, 1));
}

// --- parser ---

#[test]
fn parser_error_messages() {
    assert_eq!(parse_err("X { }").message, "Expected 'contract' keyword");
    assert_eq!(parse_err("contract { }").message, "Missing contract name after 'contract'");
    assert_eq!(parse_err("contract X }").message, "Expected '{' after contract name");
    assert_eq!(parse_err("contract X {").message, "Expected '}' to close contract block");
    assert_eq!(
        parse_err("contract X { } y").message,
        "Unexpected content after contract block"
    );
    assert_eq!(parse_err("contract X { { }").message, "Unexpected token '{'");
    assert_eq!(
        parse_err("contract X { supply \"x\" }").message,
        "'supply' expects a number, got string \"x\""
    );
    assert_eq!(
        parse_err("contract X { symbol 12 }").message,
        "'symbol' expects a string, got number 12"
    );
    assert_eq!(
        parse_err("contract X { owner y }").message,
        "'owner' expects an address, got identifier 'y'"
    );
    assert_eq!(
        parse_err("contract X { capped }").message,
        "'capped' expects a number, got '}'"
    );
}

#[test]
fn parser_value_too_large() {
    let err = parse_err("contract X { supply 18446744073709551616 }");
    assert_eq!(err.message, "Invalid supply value '18446744073709551616'");
    let tokens = Lexer::new("contract X { supply 18446744073709551615 }").tokenize().unwrap();
    let c = Parser::new(tokens, "").parse().unwrap();
    assert_eq!(c.supply.unwrap().value, u64::MAX);
}

#[test]
fn parser_duplicate_names_first_line() {
    let err = parse_err("contract X {\n mintable\n\n mintable\n}");
    assert_eq!(err.message, "Duplicate 'mintable' declaration — already set on line 2");
    assert_eq!((err.line, err.col), (4, 2));
}

#[test]
fn parser_suggestion_text() {
    let err = parse_err("contract X { decimalz 4 }");
    assert_eq!(err.message, "Unknown field 'decimalz'");
    assert_eq!(err.suggestion, Some("Did you mean 'decimals'?".to_string()));
}

#[test]
fn parser_positions_of_fields() {
    let tokens = Lexer::new("contract X {\n  supply 7\n}").tokenize().unwrap();
    let c = Parser::new(tokens, "").parse().unwrap();
    assert_eq!(c.name_position, Position { line: 1, col: 10 });
    assert_eq!(c.supply.unwrap().position, Position { line: 2, col: 3 });
}

#[test]
fn parser_missing_name_at_end_of_input() {
    let tokens = Lexer::new("contract").tokenize().unwrap();
    let err = Parser::new(tokens, "contract").parse().unwrap_err();
    assert_eq!(err.message, "Missing contract name after 'contract'");
}

// --- analyzer ---

#[test]
fn analyzer_exact_messages() {
    let mut c = contract_with_supply(0);
    c.decimals = Some(IntField { value: 80, position: Position { line: 3, col: 3 } });
    c.capped = Some(IntField { value: 0, position: Position { line: 4, col: 3 } });
    let result = analyze(&c, "contract T {\n  supply 0\n  decimals 80\n  capped 0\n}");
    let messages: Vec<&str> = result.errors.iter().map(|e| e.message.as_str()).collect();
    assert_eq!(
        messages,
        vec![
            "Supply must be greater than 0",
            "Decimals must be between 0 and 77, got 80",
            "'capped' requires 'mintable' — a cap only applies if new tokens can be minted",
        ]
    );
    assert_eq!(result.errors[0].source_line, "  supply 0");
    assert_eq!(result.errors[2].line, 4);
    assert_eq!(result.warnings[0].message, "Decimals is set to 80. Most tokens use 18");
}

#[test]
fn analyzer_cap_below_supply_message() {
    let mut c = contract_with_supply(1000);
    c.capped = Some(IntField { value: 999, position: Position { line: 5, col: 3 } });
    c.mintable = Some(toke::ast::FlagField { position: Position { line: 4, col: 3 } });
    let result = analyze(&c, "");
    assert_eq!(result.errors.len(), 1);
    assert_eq!(result.errors[0].message, "Cap (999) is less than initial supply (1000)");
    assert_eq!(result.errors[0].source_line, "");
}

#[test]
fn analyzer_missing_supply_points_at_name() {
    let mut c = contract_with_supply(1);
    c.supply = None;
    let result = analyze(&c, "contract T { }");
    assert_eq!(result.errors[0].message, "Missing required field 'supply'");
    assert_eq!((result.errors[0].line, result.errors[0].col), (1, 10));
    assert_eq!(result.errors[0].source_line, "contract T { }");
}

#[test]
fn analyzer_symbol_length_in_characters() {
    let mut c = contract_with_supply(1);
    c.symbol = Some(StringField { value: "ÅÅÅ".to_string(), position: Position { line: 1, col: 1 } });
    assert!(analyze(&c, "").warnings.is_empty());
    c.symbol = Some(StringField { value: "".to_string(), position: Position { line: 1, col: 1 } });
    assert!(analyze(&c, "").warnings.is_empty());
    c.symbol = Some(StringField { value: "ÅÅÅÅÅÅ".to_string(), position: Position { line: 1, col: 1 } });
    assert_eq!(
        analyze(&c, "").warnings[0].message,
        "Symbol 'ÅÅÅÅÅÅ' is unusually long. Most tokens use 3-5 characters"
    );
}

// --- diagnostics ---

#[test]
fn render_exact_layout() {
    let err = CompileError::lexer("Unexpected character '@'", 3, 10, "  symbol @invalid");
    assert_eq!(
        err.render(),
        "Error [line 3, col 10]: Unexpected character '@'\n\n  3 |   symbol @invalid\n      ^"
    );
    let readme = CompileError::semantic(
        "'capped' requires 'mintable' — a cap only applies if new tokens can be minted",
        4,
        5,
        "    capped 5000000",
    );
    assert_eq!(
        readme.render(),
        "Error [line 4, col 5]: 'capped' requires 'mintable' — a cap only applies if new tokens can be minted\n\n  4 |     capped 5000000\n      ^"
    );
    let warn = CompileError::warning("w", 12, 0, "x").with_suggestion("try y");
    assert_eq!(warn.render(), "Warning [line 12, col 0]: w\n\n  12 | x\n       ^\n  try y");
}

#[test]
fn source_lines_follow_str_lines() {
    assert_eq!(get_source_line("a\r\nb\r\n", 1), "a");
    assert_eq!(get_source_line("a\r\nb\r\n", 2), "b");
    assert_eq!(get_source_line("a\r\nb\r\n", 3), "");
    assert_eq!(get_source_line("a\n\nc", 2), "");
    assert_eq!(get_source_line("a\n\nc", 3), "c");
    assert_eq!(get_source_line("a\rb", 1), "a\rb");
    assert_eq!(get_source_line("", 1), "");
}

#[test]
fn suggestion_compares_in_lower_case() {
    let r = suggest_closest("SUPPLLY", &["symbol", "supply"], 3);
    assert_eq!(r, Some("supply".to_string()));
}

#[test]
fn suggestion_prefers_first_on_tie_and_respects_bound() {
    assert_eq!(suggest_closest("ab", &["ax", "xb"], 1), Some("ax".to_string()));
    assert_eq!(suggest_closest("abcd", &["wxyz"], 3), None);
    assert_eq!(suggest_closest("abcd", &["wxyz"], 4), Some("wxyz".to_string()));
    assert_eq!(suggest_closest("kitten", &["sitting"], 3), Some("sitting".to_string()));
    assert_eq!(suggest_closest("kitten", &["sitting"], 2), None);
}

// --- codegen ---

#[test]
fn push_u64_uses_shortest_encoding() {
    let mut code = Vec::new();
    push_u64(&mut code, 0);
    push_u64(&mut code, 255);
    push_u64(&mut code, 256);
    push_u64(&mut code, u64::MAX);
    assert_eq!(
        code,
        vec![
            0x60, 0x00, 0x60, 0xff, 0x61, 0x01, 0x00, 0x67, 0xff, 0xff, 0xff, 0xff, 0xff, 0xff,
            0xff, 0xff
        ]
    );
}

#[test]
fn push_value_prefixes_length() {
    let mut code = vec![0xaa];
    push_value(&mut code, &[1, 2, 3]);
    assert_eq!(code, vec![0xaa, 0x62, 1, 2, 3]);
}

#[test]
fn selectors_match_erc20() {
    assert_eq!(selector("totalSupply()"), [0x18, 0x16, 0x0d, 0xdd]);
    assert_eq!(selector("balanceOf(address)"), [0x70, 0xa0, 0x82, 0x31]);
    assert_eq!(selector("transfer(address,uint256)"), [0xa9, 0x05, 0x9c, 0xbb]);
    assert_eq!(selector("approve(address,uint256)"), [0x09, 0x5e, 0xa7, 0xb3]);
    assert_eq!(selector("name()"), [0x06, 0xfd, 0xde, 0x03]);
    assert_eq!(selector("symbol()"), [0x95, 0xd8, 0x9b, 0x41]);
    assert_eq!(selector("decimals()"), [0x31, 0x3c, 0xe5, 0x67]);
    assert_eq!(selector("allowance(address,address)"), [0xdd, 0x62, 0xed, 0x3e]);
    assert_eq!(selector("transferFrom(address,address,uint256)"), [0x23, 0xb8, 0x72, 0xdd]);
}

#[test]
fn keccak_of_empty_input() {
    assert_eq!(
        hex_output(&keccak256(&[])),
        "0xc5d2460186f7233c927e7db2dcc703c0e500b653ca82273b7bfad8045d85a470"
    );
}

#[test]
fn hex_output_is_lower_case() {
    assert_eq!(hex_output(&[0xde, 0xad, 0x0b, 0x0f]), "0xdead0b0f");
    assert_eq!(hex_output(&[]), "0x");
}

#[test]
fn emitter_resolves_forward_and_backward_jumps() {
    let mut e = Emitter::new();
    e.emit_label("start");
    e.emit_jumpi_to("end");
    e.emit(opcodes::STOP);
    e.emit_label("end");
    e.emit_jump_to("start");
    assert_eq!(e.len(), 11);
    e.resolve().unwrap();
    assert_eq!(
        e.into_bytes(),
        vec![0x5b, 0x61, 0x00, 0x06, 0x57, 0x00, 0x5b, 0x61, 0x00, 0x00, 0x56]
    );
}

#[test]
fn emitter_latest_label_definition_wins() {
    let mut e = Emitter::new();
    e.emit_label("a");
    e.emit_bytes(&[1, 2]);
    e.emit_label("a");
    e.emit_jump_to("a");
    e.resolve().unwrap();
    assert_eq!(e.into_bytes(), vec![0x5b, 1, 2, 0x5b, 0x61, 0x00, 0x03, 0x56]);
}

#[test]
fn emitter_unresolved_label_error() {
    let mut e = Emitter::new();
    e.emit_jump_to("nowhere");
    let err = e.resolve().unwrap_err();
    assert_eq!(err.message, "Unresolved label 'nowhere'");
    assert_eq!(err.kind, ErrorKind::SemanticError);
    assert_eq!((err.line, err.col), (0, 0));
}

#[test]
fn dispatcher_layout() {
    let mut e = Emitter::new();
    emit_dispatcher(&mut e, &contract_with_supply(1));
    let code = e.into_bytes();
    assert_eq!(&code[..6], &[0x60, 0x00, 0x35, 0x60, 0xe0, 0x1c]);
    assert_eq!(&code[6..18], &[0x80, 0x63, 0x06, 0xfd, 0xde, 0x03, 0x14, 0x61, 0, 0, 0x57, 0x80]);
    assert_eq!(&code[6 + 8 * 11..6 + 8 * 11 + 6], &[0x80, 0x63, 0x23, 0xb8, 0x72, 0xdd]);
    assert_eq!(code.len(), 6 + 9 * 11 + 5);
    assert_eq!(&code[code.len() - 5..], &[0x60, 0x00, 0x60, 0x00, 0xfd]);
}

#[test]
fn handlers_layout() {
    let mut e = Emitter::new();
    emit_total_supply(&mut e);
    emit_balance_of(&mut e);
    let code = e.into_bytes();
    assert_eq!(&code[..12], &[0x5b, 0x60, 0x00, 0x54, 0x60, 0x00, 0x52, 0x60, 0x20, 0x60, 0x00, 0xf3]);
    assert_eq!(code[12], 0x5b);
    assert_eq!(code.len(), 12 + 26);
}

#[test]
fn name_handler_returns_an_abi_string() {
    let mut e = Emitter::new();
    emit_name(&mut e, &contract_with_supply(1));
    let code = e.into_bytes();
    let mut expected = vec![0x5b, 0x60, 0x20, 0x60, 0x00, 0x52, 0x60, 0x01, 0x60, 0x20, 0x52, 0x7f, b'T'];
    expected.extend_from_slice(&[0u8; 31]);
    expected.extend_from_slice(&[0x60, 0x40, 0x52, 0x60, 0x60, 0x60, 0x00, 0xf3]);
    assert_eq!(code, expected);
}

#[test]
fn decimals_handler_defaults_to_18() {
    let mut e = Emitter::new();
    emit_decimals(&mut e, &contract_with_supply(1));
    assert_eq!(
        e.into_bytes(),
        vec![0x5b, 0x60, 0x12, 0x60, 0x00, 0x52, 0x60, 0x20, 0x60, 0x00, 0xf3]
    );
}

fn transfer_topic() -> Vec<u8> {
    vec![
        0xdd, 0xf2, 0x52, 0xad, 0x1b, 0xe2, 0xc8, 0x9b, 0x69, 0xc2, 0xb0, 0x68, 0xfc, 0x37, 0x8d,
        0xaa, 0x95, 0x2b, 0xa7, 0xf1, 0x63, 0xc4, 0xa1, 0x16, 0x28, 0xf5, 0x5a, 0x4d, 0xf5, 0x23,
        0xb3, 0xef,
    ]
}

#[test]
fn constructor_bytes() {
    let mut c = contract_with_supply(1000000);
    c.decimals = Some(IntField { value: 0, position: Position { line: 3, col: 3 } });
    let code = emit_constructor(&c, 10);
    let mut expected = vec![
        0x62, 0x0f, 0x42, 0x40, 0x60, 0x00, 0x55, 0x33, 0x60, 0x00, 0x52, 0x60, 0x05, 0x60, 0x20,
        0x52, 0x60, 0x40, 0x60, 0x00, 0x20, 0x62, 0x0f, 0x42, 0x40, 0x90, 0x55, 0x62, 0x0f, 0x42,
        0x40, 0x60, 0x00, 0x52, 0x33, 0x60, 0x00, 0x7f,
    ];
    expected.extend_from_slice(&transfer_topic());
    expected.extend_from_slice(&[
        0x60, 0x20, 0x60, 0x00, 0xa3, 0x60, 0x0a, 0x61, 0x00, 0x58, 0x60, 0x00, 0x39, 0x60, 0x0a,
        0x60, 0x00, 0xf3,
    ]);
    assert_eq!(code, expected);
}

#[test]
fn constructor_scales_the_supply_by_the_decimals() {
    // CoolCoin: 5000000 tokens of 18 decimals
    let mut c = contract_with_supply(5000000);
    c.decimals = Some(IntField { value: 18, position: Position { line: 3, col: 3 } });
    let code = emit_constructor(&c, 1);
    assert_eq!(
        &code[..29],
        &[
            0x6a, 0x04, 0x22, 0xca, 0x8b, 0x0a, 0x00, 0xa4, 0x25, 0x00, 0x00, 0x00, 0x60, 0x00,
            0x55, 0x33, 0x60, 0x00, 0x52, 0x60, 0x05, 0x60, 0x20, 0x52, 0x60, 0x40, 0x60, 0x00,
            0x20
        ]
    );
}

#[test]
fn generate_readme_coolcoin() {
    let source = "contract CoolCoin {\n    symbol \"COOL\"\n    decimals 18\n    supply 5000000\n    mintable\n    capped 10000000\n}\n";
    let checked = check_source(source).unwrap();
    let bytecode = generate(&checked.contract).unwrap();
    assert!(hex_output(&bytecode)
        .starts_with("0x6a0422ca8b0a00a4250000006000553360005260056020526040600020"));
}

#[test]
fn generate_places_the_runtime_after_the_constructor() {
    let c = contract_with_supply(1000);
    let bytecode = generate(&c).unwrap();
    let mut e = Emitter::new();
    emit_dispatcher(&mut e, &c);
    let dispatcher = e.into_bytes();
    let (copy_at, runtime_len) = find_codecopy(&bytecode);
    let ctor_len = bytecode.len() - runtime_len;
    assert_eq!(&bytecode[ctor_len..ctor_len + 6], &dispatcher[..6]);
    let ctor = emit_constructor(&c, bytecode.len() - ctor_len);
    assert_eq!(ctor.len(), ctor_len);
    assert_eq!(&bytecode[..ctor_len], &ctor[..]);
    // the CODECOPY offset is the constructor's length
    let p = copy_at - 4;
    assert_eq!(bytecode[p - 1], 0x61);
    assert_eq!(bytecode[p] as usize * 256 + bytecode[p + 1] as usize, ctor_len);
    // every jump in the runtime is resolved
    let runtime = &bytecode[ctor_len..];
    let mut i = 0;
    while i + 3 < runtime.len() {
        if runtime[i] == 0x61 && runtime[i + 3] == 0x57 {
            let target = runtime[i + 1] as usize * 256 + runtime[i + 2] as usize;
            assert_eq!(runtime[target], 0x5b);
        }
        i += 1;
    }
}

/// Where the constructor's `CODECOPY` stands, and the runtime length that the
/// `PUSHn` after it holds.
fn find_codecopy(bytecode: &[u8]) -> (usize, usize) {
    let mut i = 0;
    loop {
        if bytecode[i] == 0x39 {
            // CODECOPY, then PUSHn len, PUSH1 0, RETURN
            let n = (bytecode[i + 1] - 0x5f) as usize;
            let mut v = 0usize;
            for k in 0..n {
                v = v * 256 + bytecode[i + 2 + k] as usize;
            }
            return (i, v);
        }
        i += 1;
    }
}

#[test]
fn generate_refuses_a_supply_that_overflows_a_word() {
    let mut c = contract_with_supply(u64::MAX);
    c.decimals = Some(IntField { value: 77, position: Position { line: 3, col: 3 } });
    let err = generate(&c).unwrap_err();
    assert_eq!(err.message, "Supply scaled by decimals does not fit in 256 bits");
    assert_eq!(err.kind, ErrorKind::SemanticError);
    assert_eq!((err.line, err.col), (2, 3));
}

// --- pipeline and wizard ---

#[test]
fn check_source_full_example() {
    let source = "contract GoldToken {\n    symbol \"GLD\"\n    decimals 18\n    supply 1000000\n    mintable\n    burnable\n    capped 10000000\n    owner 0xdeadbeefdeadbeefdeadbeefdeadbeefdeadbeef\n}\n";
    let checked = check_source(source).unwrap();
    assert_eq!(checked.token_count, 17);
    assert_eq!(checked.contract.name, "GoldToken");
    assert_eq!(checked.contract.owner.unwrap().value, [0xde, 0xad, 0xbe, 0xef, 0xde, 0xad, 0xbe, 0xef, 0xde, 0xad, 0xbe, 0xef, 0xde, 0xad, 0xbe, 0xef, 0xde, 0xad, 0xbe, 0xef]);
    assert!(checked.analysis.errors.is_empty());
    assert!(checked.analysis.warnings.is_empty());
}

#[test]
fn check_source_reports_semantic_errors_and_stops_on_syntax() {
    let checked = check_source("contract C { supply 5 capped 9 }").unwrap();
    assert_eq!(checked.analysis.errors.len(), 1);
    assert!(checked.analysis.errors[0].message.starts_with("'capped' requires 'mintable'"));
    match check_source("contract C { supply 5 supply 6 }").unwrap_err() {
        CheckError::Parse { token_count, error } => {
            assert_eq!(token_count, 9);
            assert_eq!(error.kind, ErrorKind::ParseError);
        }
        CheckError::Lex(_) => panic!("expected a syntax error"),
    }
    match check_source("contract C { supply 5x }").unwrap_err() {
        CheckError::Lex(error) => assert_eq!(error.kind, ErrorKind::LexerError),
        CheckError::Parse { .. } => panic!("expected a lexical error"),
    }
}

#[test]
fn wizard_validation_messages() {
    assert_eq!(validate_contract_name(""), Err("Contract name cannot be empty"));
    assert_eq!(validate_contract_name("1abc"), Err("Must start with a letter"));
    assert_eq!(validate_contract_name("ab-c"), Err("Only letters, numbers, and underscores allowed"));
    assert_eq!(validate_contract_name("Ab_9"), Ok(()));
    assert_eq!(validate_decimals(77), Ok(()));
    assert_eq!(validate_decimals(78), Err("Decimals must be between 0 and 77"));
    assert_eq!(validate_supply(0), Err("Supply must be greater than 0"));
    assert_eq!(validate_supply(1), Ok(()));
    assert_eq!(validate_cap(9, 10), Err("Cap must be greater than or equal to supply"));
    assert_eq!(validate_cap(10, 10), Ok(()));
}

#[test]
fn wizard_defaults_and_file_name() {
    assert_eq!(default_symbol("mytoken"), "MYT");
    assert_eq!(default_symbol("ab"), "AB");
    assert_eq!(init_file_name("MyToken"), "mytoken.tc");
}

#[test]
fn wizard_source_checks_clean() {
    let source = render_contract_source("CoolCoin", "COOL", 18, 5000000, true, false, Some(10000000));
    assert_eq!(
        source,
        "contract CoolCoin {\n    symbol \"COOL\"\n    decimals 18\n    supply 5000000\n    mintable\n    capped 10000000\n}\n"
    );
    let checked = check_source(&source).unwrap();
    assert!(checked.analysis.errors.is_empty());
    assert!(checked.analysis.warnings.is_empty());
    assert_eq!(checked.contract.capped.unwrap().value, 10000000);
}

#[test]
fn wizard_source_reads_back_its_values() {
    let source = render_contract_source("Plain_1", "P1", 0, 1, false, true, None);
    let checked = check_source(&source).unwrap();
    assert!(checked.analysis.errors.is_empty());
    let c = checked.contract;
    assert_eq!(c.name, "Plain_1");
    assert_eq!(c.symbol.unwrap().value, "P1");
    assert_eq!(c.decimals.unwrap().value, 0);
    assert_eq!(c.supply.unwrap().value, 1);
    assert!(c.mintable.is_none());
    assert!(c.burnable.is_some());
    assert!(c.capped.is_none());
    assert!(c.owner.is_none());
}

#[test]
fn tokens_stand_in_source_order() {
    let tokens = Lexer::new("contract A {\n  supply 1  # c\n  mintable }\n").tokenize().unwrap();
    for pair in tokens.windows(2) {
        assert!((pair[0].line, pair[0].col) < (pair[1].line, pair[1].col));
    }
}

#[test]
fn resolving_twice_changes_nothing() {
    let mut e = Emitter::new();
    e.emit_jumpi_to("end");
    e.emit(0x00);
    e.emit_label("end");
    e.resolve().unwrap();
    let len = e.len();
    e.resolve().unwrap();
    assert_eq!(e.len(), len);
    assert_eq!(e.into_bytes(), vec![0x61, 0x00, 0x05, 0x57, 0x00, 0x5b]);
}

#[test]
fn tokens_stand_at_their_first_character() {
    let src = "# header\ncontract A {\n  supply 12\n  symbol \"X\"\n}\n";
    let tokens = Lexer::new(src).tokenize().unwrap();
    let firsts: Vec<char> = tokens[..tokens.len() - 1]
        .iter()
        .map(|t| get_source_line(src, t.line).chars().nth(t.col - 1).unwrap())
        .collect();
    assert_eq!(firsts, vec!['c', 'A', '{', 's', '1', 's', '"', '}']);
}

#[test]
fn cap_check_keeps_earlier_errors() {
    let mut c = contract_with_supply(10);
    c.capped = Some(IntField { value: 9, position: Position { line: 4, col: 5 } });
    let mut errs = vec![CompileError::semantic("earlier", 1, 1, "")];
    check_capped_gte_supply(&c, "", &mut errs);
    assert_eq!(errs.len(), 2);
    assert_eq!(errs[0].message, "earlier");
    assert_eq!(errs[1].message, "Cap (9) is less than initial supply (10)");
    assert_eq!((errs[1].line, errs[1].col), (4, 5));
    c.capped = Some(IntField { value: 10, position: Position { line: 4, col: 5 } });
    check_capped_gte_supply(&c, "", &mut errs);
    assert_eq!(errs.len(), 2);
}

#[test]
fn compile_checks_lengths_then_generates() {
    let c = contract_with_supply(1000);
    assert_eq!(compile(&c).unwrap().unwrap(), generate(&c).unwrap());
}
