# toke

A compiler for a small declarative language of ERC-20 token contracts
(`.tc` files), verified with Verus.

```
contract CoolCoin {
    symbol "COOL"
    decimals 18
    supply 5000000
    mintable
    capped 10000000
}
```

## Layout

- `src/` — the library, verified:
  - `text.rs`: character classes, decimal rendering and parsing, UTF-8 length.
  - `errors.rs`: `CompileError`, its rendering, source-line lookup,
    edit distance and the "did you mean" suggestion.
  - `lex_tokens.rs`, `lexer.rs`: tokens, and the lexer with a functional
    specification (`lex`) of what it returns for every input.
  - `ast.rs`, `parser.rs`: the syntax tree and the parser, specified by
    `parse_from`.
  - `analyzer.rs`: the semantic checks (errors and warnings).
  - `pipeline.rs`: lex, parse and analyze in one call.
  - `codegen/`: opcodes, PUSH encoding and 256-bit supply scaling, the
    label/jump emitter, the dispatcher and the handlers of the nine ERC-20
    functions, the constructor (supply, deployer balance, `Transfer` event,
    copy of the runtime) and `generate`.
  - `scaffold.rs`: the rules of the `init` wizard and the text it writes.
  - `cli.rs`: the command-line arguments.
- `app/` — the `toke` command: file I/O, prompts, printing.
- `tests/` — tests run against the compiled library.
