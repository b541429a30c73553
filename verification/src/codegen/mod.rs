//! Bytecode generation: a constructor followed by the runtime code.
use vstd::prelude::*;
use vstd::string::*;
use crate::ast::{ContractNode, ContractView};
use crate::errors::{error_view, CompileError, ErrorKind, ErrorView};
use crate::codegen::constructor::{contract_constructor, emit_constructor, minted_units};
use crate::codegen::dispatcher::{dispatcher_state, emit_dispatcher};
use crate::codegen::emitter::{
    empty_state, first_unresolved, label_offset, resolve_outcome, Emitter, EmitterState,
};
use crate::codegen::functions::{
    allowance_state, approve_state, balance_of_state, decimals_state, emit_allowance, emit_approve,
    emit_balance_of, emit_decimals, emit_name, emit_revert, emit_symbol, emit_total_supply,
    emit_transfer, emit_transfer_from, fits_memory, name_bytes, name_state, revert_state,
    symbol_bytes, symbol_state, total_supply_state, transfer_from_state, transfer_state,
};
use crate::codegen::utils::{fits_word, token_units_bytes};
use crate::scaffold::default_symbol;

pub mod constructor;
pub mod dispatcher;
pub mod emitter;
pub mod functions;
pub mod opcodes;
pub mod utils;

verus! {

/// The runtime code before its jumps are resolved: the dispatcher, the
/// handlers of the nine ERC-20 functions, and the shared revert.
pub open spec fn runtime_state(c: ContractView) -> EmitterState {
    let s0 = dispatcher_state(empty_state());
    let s3 = decimals_state(symbol_state(name_state(s0, c), c), c);
    let s6 = transfer_state(balance_of_state(total_supply_state(s3)));
    revert_state(transfer_from_state(allowance_state(approve_state(s6))))
}

/// The runtime code with every jump resolved.
pub open spec fn runtime_code(c: ContractView) -> Seq<u8> {
    resolve_outcome(runtime_state(c)).0.code
}

/// What `generate` produces: the constructor followed by the runtime code.
pub open spec fn generated(c: ContractView) -> Seq<u8> {
    contract_constructor(c, runtime_code(c).len() as usize) + runtime_code(c)
}

/// The error for a supply that, scaled by its decimals, does not fit in a
/// 256-bit word.
pub open spec fn supply_overflow_error(c: ContractView) -> ErrorView {
    error_view(
        ErrorKind::SemanticError,
        "Supply scaled by decimals does not fit in 256 bits"@,
        (c.supply->0).1.line,
        (c.supply->0).1.col,
        ""@,
    )
}

proof fn lemma_label_defined(labels: Seq<(Seq<char>, nat)>, name: Seq<char>, i: int)
    requires
        0 <= i < labels.len(),
        labels[i].0 == name,
    ensures
        label_offset(labels, name) is Some,
    decreases labels.len(),
{
    if labels.last().0 != name {
        assert(labels.drop_last()[i] == labels[i]);
        lemma_label_defined(labels.drop_last(), name, i);
    }
}

proof fn lemma_none_unresolved(
    jumps: Seq<(nat, Seq<char>)>,
    labels: Seq<(Seq<char>, nat)>,
    k: int,
)
    requires
        0 <= k,
        forall|j: int| k <= j < jumps.len() ==> label_offset(labels, #[trigger] jumps[j].1) is Some,
    ensures
        first_unresolved(jumps, labels, k) is None,
    decreases jumps.len() - k,
{
    if k < jumps.len() {
        lemma_none_unresolved(jumps, labels, k + 1);
    }
}

/// Every jump of the runtime code targets a label that it defines.
pub proof fn lemma_runtime_resolves(c: ContractView)
    ensures
        first_unresolved(runtime_state(c).jumps, runtime_state(c).labels, 0) is None,
        resolve_outcome(runtime_state(c)).1 is None,
{
    let st = runtime_state(c);
    let names = seq![
        "name"@, "symbol"@, "decimals"@, "totalSupply"@, "balanceOf"@, "transfer"@, "approve"@,
        "allowance"@, "transferFrom"@, "revert"@,
    ];
    assert(st.labels.len() == 10);
    assert forall|i: int| 0 <= i < 10 implies #[trigger] st.labels[i].0 == names[i] by {}
    assert(st.jumps.len() == 12);
    let targets = seq![0int, 1, 2, 3, 4, 5, 6, 7, 8, 9, 9, 9];
    assert forall|j: int| 0 <= j < 12 implies #[trigger] st.jumps[j].1 == names[targets[j]] by {}
    assert forall|j: int| 0 <= j < st.jumps.len() implies label_offset(
        st.labels,
        #[trigger] st.jumps[j].1,
    ) is Some by {
        lemma_label_defined(st.labels, st.jumps[j].1, targets[j]);
    }
    lemma_none_unresolved(st.jumps, st.labels, 0);
}

/// The hexadecimal digit for `d < 16`, in lower case.
pub open spec fn hex_digit(d: nat) -> char {
    if d < 10 {
        (48 + d) as char
    } else {
        (87 + d) as char
    }
}

/// Two lower-case hexadecimal digits per byte, high nibble first.
pub open spec fn lower_hex(bytes: Seq<u8>) -> Seq<char> {
    Seq::new(
        2 * bytes.len(),
        |i: int|
            if i % 2 == 0 {
                hex_digit((bytes[i / 2] / 16) as nat)
            } else {
                hex_digit((bytes[i / 2] % 16) as nat)
            },
    )
}

/// `hex::encode`: two lower-case hexadecimal digits per byte, high nibble
/// first, as the crate documents and its source does.
#[verifier::external_body]
fn hex_encode(data: &[u8]) -> (s: String)
    ensures
        s@ == lower_hex(data@),
{
    hex::encode(data)
}

/// Bytecode as the command line prints it: `0x` and lower-case hexadecimal.
pub fn hex_output(bytecode: &[u8]) -> (s: String)
    ensures
        s@ == "0x"@ + lower_hex(bytecode@),
{
    let digits = hex_encode(bytecode);
    let mut s = String::from_str("0x");
    s.append(digits.as_str());
    s
}

/// Compiles a contract: the runtime code (dispatcher, the nine handlers and
/// the revert, with every jump resolved) after the constructor that deploys
/// it. Fails only when the supply, scaled by the decimals, does not fit in a
/// 256-bit word.
pub fn generate(contract: &ContractNode) -> (r: Result<Vec<u8>, CompileError>)
    requires
        contract.supply is Some,
        fits_memory(name_bytes(contract@)),
        fits_memory(symbol_bytes(contract@)),
    ensures
        match r {
            Ok(b) => fits_word(minted_units(contract@)) && b@ == generated(contract@),
            Err(e) => !fits_word(minted_units(contract@)) && e@ == supply_overflow_error(
                contract@,
            ),
        },
{
    // the supply must fit in a word once scaled by the decimals
    let (supply, position) = match &contract.supply {
        Some(f) => (f.value, f.position),
        None => (0, crate::ast::Position { line: 0, col: 0 }),
    };
    let decimals = match &contract.decimals {
        Some(f) => f.value,
        None => 18,
    };
    if token_units_bytes(supply, decimals).is_none() {
        return Err(
            CompileError::semantic(
                "Supply scaled by decimals does not fit in 256 bits",
                position.line,
                position.col,
                "",
            ),
        );
    }

    // the runtime code: dispatcher, function handlers, revert
    let mut emitter = Emitter::new();
    emit_dispatcher(&mut emitter, contract);
    emit_name(&mut emitter, contract);
    emit_symbol(&mut emitter, contract);
    emit_decimals(&mut emitter, contract);
    emit_total_supply(&mut emitter);
    emit_balance_of(&mut emitter);
    emit_transfer(&mut emitter);
    emit_approve(&mut emitter);
    emit_allowance(&mut emitter);
    emit_transfer_from(&mut emitter);
    emit_revert(&mut emitter);

    // write every jump target into its placeholder
    proof {
        lemma_runtime_resolves(contract@);
    }
    emitter.resolve()?;
    let mut runtime = emitter.into_bytes();

    // the constructor, told how long the runtime is
    let mut bytecode = emit_constructor(contract, runtime.len());

    // [constructor | runtime]
    bytecode.append(&mut runtime);
    Ok(bytecode)
}

/// Compiles a contract whose name and symbol (the declared one, or the
/// default derived from the name) are short enough for `generate`: `None`
/// when one of them is not, otherwise what `generate` returns.
pub fn compile(contract: &ContractNode) -> (r: Option<Result<Vec<u8>, CompileError>>)
    requires
        contract.supply is Some,
    ensures
        ({
            let fits = fits_memory(name_bytes(contract@)) && fits_memory(symbol_bytes(contract@));
            match r {
                None => !fits,
                Some(Ok(b)) => fits && fits_word(minted_units(contract@)) && b@ == generated(
                    contract@,
                ),
                Some(Err(e)) => fits && !fits_word(minted_units(contract@)) && e@
                    == supply_overflow_error(contract@),
            }
        }),
{
    let name_len = contract.name.as_str().as_bytes().len();
    let symbol_len = match &contract.symbol {
        Some(f) => f.value.as_str().as_bytes().len(),
        None => {
            let s = default_symbol(contract.name.as_str());
            s.as_str().as_bytes().len()
        },
    };
    if name_len > usize::MAX - 128 || symbol_len > usize::MAX - 128 {
        return None;
    }
    Some(generate(contract))
}

/// The deployed code is the runtime code: the output is the constructor
/// followed by the runtime code, and the constructor's `CODECOPY` reads
/// from the first byte after the constructor (modulo 2^16) as many bytes as
/// the runtime code has.
pub proof fn lemma_generated_deploys_runtime(c: ContractView)
    requires
        c.supply is Some,
        fits_word(minted_units(c)),
    ensures
        ({
            let rt = runtime_code(c);
            let ctor = contract_constructor(c, rt.len() as usize);
            let b = generated(c);
            let p = crate::codegen::constructor::constructor_head(
                crate::codegen::utils::minimal_be(minted_units(c)),
                rt.len() as usize,
            ).len() as int;
            &&& b.subrange(ctor.len() as int, b.len() as int) == rt
            &&& b[p - 1] == crate::codegen::opcodes::PUSH2
            &&& b[p] as nat * 256 + b[p + 1] as nat == ctor.len() % 65536
            &&& b[p + 4] == crate::codegen::opcodes::CODECOPY
        }),
{
    let rt = runtime_code(c);
    let amount = crate::codegen::utils::minimal_be(minted_units(c));
    crate::codegen::constructor::lemma_constructor_copies_what_follows(amount, rt.len() as usize);
    let ctor = contract_constructor(c, rt.len() as usize);
    let b = generated(c);
    assert(b.subrange(ctor.len() as int, b.len() as int) =~= rt);
    let p = crate::codegen::constructor::constructor_head(amount, rt.len() as usize).len() as int;
    assert(b[p] == ctor[p]);
    assert(b[p + 1] == ctor[p + 1]);
    assert(b[p - 1] == ctor[p - 1]);
    assert(b[p + 4] == ctor[p + 4]);
}

proof fn lemma_pow10_is_pow(k: nat)
    ensures
        crate::codegen::utils::pow10(k) == vstd::arithmetic::power::pow(10, k),
    decreases k,
{
    reveal(vstd::arithmetic::power::pow);
    if k > 0 {
        lemma_pow10_is_pow((k - 1) as nat);
    }
}

/// The constructor mints the declared supply in the token's smallest unit:
/// its first instruction pushes `supply * 10^d`, where `d` is the number the
/// `decimals()` handler returns (the declared decimals, or 18).
pub proof fn lemma_minted_amount_matches_decimals(c: ContractView, st: EmitterState, n: usize)
    requires
        c.supply is Some,
        fits_word(minted_units(c)),
    ensures
        ({
            let d: u64 = match c.decimals {
                Some((d, _)) => d,
                None => 18,
            };
            let supply: u64 = match c.supply {
                Some((v, _)) => v,
                None => 0,
            };
            let code = contract_constructor(c, n);
            let k = code[0] - 0x5f;
            let h = decimals_state(st, c).code.skip(st.code.len() as int);
            let kd = h[1] - 0x5f;
            &&& 1 <= k <= 32
            &&& crate::codegen::utils::be_value(code.subrange(1, 1 + k)) == supply
                * vstd::arithmetic::power::pow(10, d as nat)
            &&& h[0] == 0x5b
            &&& 1 <= kd <= 8
            &&& crate::codegen::utils::be_value(h.subrange(2, 2 + kd)) == d
            &&& h.skip(2 + kd) == seq![0x60u8, 0x00, 0x52, 0x60, 0x20, 0x60, 0x00, 0xf3]
        }),
{
    let d = crate::codegen::constructor::decimals_of(c);
    let amount = crate::codegen::utils::minimal_be(minted_units(c));
    crate::codegen::utils::lemma_minimal_be_fits_word(minted_units(c));
    crate::codegen::utils::lemma_be_roundtrip(minted_units(c));
    lemma_pow10_is_pow(d as nat);
    let code = contract_constructor(c, n);
    assert(code[0] == (0x5f + amount.len()) as u8);
    assert(code.subrange(1, 1 + amount.len() as int) =~= amount);
    crate::codegen::utils::lemma_push_u64_encoding(d);
    let m = crate::codegen::utils::minimal_be(d as nat);
    let h = decimals_state(st, c).code.skip(st.code.len() as int);
    assert(h =~= seq![0x5bu8] + (seq![(0x5f + m.len()) as u8] + m) + seq![
        0x60u8,
        0x00,
        0x52,
        0x60,
        0x20,
        0x60,
        0x00,
        0xf3,
    ]);
    assert(h.subrange(2, 2 + m.len() as int) =~= m);
    assert(h.skip(2 + m.len() as int) =~= seq![0x60u8, 0x00, 0x52, 0x60, 0x20, 0x60, 0x00, 0xf3]);
}

#[verifier::spinoff_prover]
#[verifier::rlimit(100)]
proof fn lemma_constructor_credits_deployer(amount: Seq<u8>, n: usize)
    requires
        1 <= amount.len() <= 32,
    ensures
        ({
            let code = crate::codegen::constructor::constructor_code(amount, n);
            let a = code[0] - 0x5f + 1;
            &&& a == amount.len() + 1
            &&& code.subrange(a, a + 4) == seq![0x60u8, 0x00, 0x55, 0x33]
            &&& code.subrange(a + 4, a + 17) == seq![
                0x60u8,
                0x00,
                0x52,
                0x60,
                0x05,
                0x60,
                0x20,
                0x52,
                0x60,
                0x40,
                0x60,
                0x00,
                0x20,
            ]
            &&& code.subrange(a + 17, a + 17 + a) == code.subrange(0, a)
            &&& code.subrange(a + 17 + a, a + 19 + a) == seq![0x90u8, 0x55]
        }),
{
    let p = crate::codegen::utils::push_instr(amount);
    let a = p.len() as int;
    let head = crate::codegen::constructor::constructor_head(amount, n);
    let code = crate::codegen::constructor::constructor_code(amount, n);
    let front = p + seq![0x60u8, 0x00, 0x55, 0x33, 0x60, 0x00, 0x52, 0x60, 0x05, 0x60, 0x20, 0x52,
        0x60, 0x40, 0x60, 0x00, 0x20] + p + seq![0x90u8, 0x55];
    assert(head.subrange(0, front.len() as int) =~= front);
    assert(code.subrange(0, front.len() as int) =~= front) by {
        assert forall|x: int| 0 <= x < front.len() implies code[x] == head[x] by {}
    }
    assert(code[0] == front[0]);
    assert forall|x: int| 0 <= x < front.len() implies #[trigger] code[x] == front[x] by {
        assert(code.subrange(0, front.len() as int)[x] == code[x]);
    }
    assert(code.subrange(a, a + 4) =~= front.subrange(a, a + 4));
    assert(code.subrange(a + 4, a + 17) =~= front.subrange(a + 4, a + 17));
    assert(code.subrange(a + 17, a + 17 + a) =~= p);
    assert(code.subrange(0, a) =~= p);
    assert(code.subrange(a + 17 + a, a + 19 + a) =~= front.subrange(a + 17 + a, a + 19 + a));
}

/// `balanceOf` reads the storage slot that the constructor credits:
/// `keccak256(abi.encode(addr, 5))`, the address in memory word 0 and the
/// base slot 5 in word 1. The handler hashes its argument that way and loads
/// the slot; the constructor stores the minted amount in slot 0, hashes the
/// deployer's address the same way and stores the same amount there.
pub proof fn lemma_balance_of_reads_the_credited_slot(st: EmitterState, c: ContractView, n: usize)
    requires
        c.supply is Some,
        fits_word(minted_units(c)),
    ensures
        ({
            let key = seq![0x60u8, 0x00, 0x52, 0x60, 0x05, 0x60, 0x20, 0x52, 0x60, 0x40, 0x60, 0x00, 0x20];
            let h = balance_of_state(st).code.skip(st.code.len() as int);
            let code = contract_constructor(c, n);
            let a = code[0] - 0x5f + 1;
            &&& h.subrange(0, 4) == seq![0x5bu8, 0x60, 0x04, 0x35]
            &&& h.subrange(4, 17) == key
            &&& h[17] == 0x54
            &&& code.subrange(a, a + 4) == seq![0x60u8, 0x00, 0x55, 0x33]
            &&& code.subrange(a + 4, a + 17) == key
            &&& code.subrange(a + 17, a + 17 + a) == code.subrange(0, a)
            &&& code.subrange(a + 17 + a, a + 19 + a) == seq![0x90u8, 0x55]
        }),
{
    let amount = crate::codegen::utils::minimal_be(minted_units(c));
    crate::codegen::utils::lemma_minimal_be_fits_word(minted_units(c));
    lemma_constructor_credits_deployer(amount, n);
    let h = balance_of_state(st).code.skip(st.code.len() as int);
    assert(h.subrange(0, 4) =~= seq![0x5bu8, 0x60, 0x04, 0x35]);
    assert(h.subrange(4, 17) =~= seq![
        0x60u8,
        0x00,
        0x52,
        0x60,
        0x05,
        0x60,
        0x20,
        0x52,
        0x60,
        0x40,
        0x60,
        0x00,
        0x20,
    ]);
}

} // verus!
