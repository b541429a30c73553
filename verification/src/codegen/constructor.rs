//! The deployment code that runs once and returns the runtime code.
use vstd::prelude::*;
use crate::ast::{ContractNode, ContractView};
use crate::codegen::emitter::{hi_byte, lo_byte};
use crate::codegen::opcodes;
use crate::codegen::utils::{
    event_topic, fits_word, keccak256_digest, minimal_be, push_instr, push_u64, push_u64_instr,
    push_value, token_units, token_units_bytes,
};

verus! {

/// The decimals of a contract: the declared ones, or 18.
pub open spec fn decimals_of(c: ContractView) -> u64 {
    match c.decimals {
        Some((d, _)) => d,
        None => 18,
    }
}

/// The initial supply in the token's smallest unit: the declared supply
/// scaled by `10^decimals`.
pub open spec fn minted_units(c: ContractView) -> nat {
    match c.supply {
        Some((supply, _)) => token_units(supply, decimals_of(c)),
        None => 0,
    }
}

/// The topic of the ERC-20 `Transfer` event: the Keccak-256 digest of its
/// signature.
pub open spec fn transfer_topic() -> Seq<u8> {
    keccak256_digest(vstd::utf8::encode_utf8("Transfer(address,address,uint256)"@))
}

/// Everything up to and including the `PUSH2` whose operand is the
/// constructor's own length. `amount` is the minted amount as big-endian bytes.
pub open spec fn constructor_head(amount: Seq<u8>, runtime_len: usize) -> Seq<u8> {
    // totalSupply = amount
    push_instr(amount) + seq![opcodes::PUSH1, 0x00u8, opcodes::SSTORE]
    // balanceOf[msg.sender] = amount, at keccak256(abi.encode(msg.sender, 5))
    + seq![
        opcodes::CALLER,
        opcodes::PUSH1,
        0x00u8,
        opcodes::MSTORE,
        opcodes::PUSH1,
        0x05u8,
        opcodes::PUSH1,
        0x20u8,
        opcodes::MSTORE,
        opcodes::PUSH1,
        0x40u8,
        opcodes::PUSH1,
        0x00u8,
        opcodes::SHA3,
    ] + push_instr(amount) + seq![opcodes::SWAP1, opcodes::SSTORE]
    // Transfer(0, msg.sender, amount): LOG3(0, 32, topic, 0, msg.sender)
    + push_instr(amount) + seq![
        opcodes::PUSH1,
        0x00u8,
        opcodes::MSTORE,
        opcodes::CALLER,
        opcodes::PUSH1,
        0x00u8,
        opcodes::PUSH32,
    ] + transfer_topic() + seq![
        opcodes::PUSH1,
        0x20u8,
        opcodes::PUSH1,
        0x00u8,
        opcodes::LOG3,
    ]
    // CODECOPY(0, constructor length, runtime_len)
    + push_u64_instr(runtime_len as u64) + seq![opcodes::PUSH2]
}

/// Everything after that operand.
pub open spec fn constructor_tail(runtime_len: usize) -> Seq<u8> {
    seq![opcodes::PUSH1, 0x00u8, opcodes::CODECOPY] + push_u64_instr(runtime_len as u64) + seq![
        opcodes::PUSH1,
        0x00u8,
        opcodes::RETURN,
    ]
}

pub open spec fn constructor_len(amount: Seq<u8>, runtime_len: usize) -> nat {
    constructor_head(amount, runtime_len).len() + 2 + constructor_tail(runtime_len).len()
}

/// The constructor: store the minted amount as the total supply and as the
/// deployer's balance, log a `Transfer` from the zero address to the
/// deployer, then copy the `runtime_len` bytes that follow the constructor
/// into memory and return them. The copy's source offset is the
/// constructor's own length (as a 16-bit number).
pub open spec fn constructor_code(amount: Seq<u8>, runtime_len: usize) -> Seq<u8> {
    let n = constructor_len(amount, runtime_len);
    constructor_head(amount, runtime_len) + seq![hi_byte(n), lo_byte(n)] + constructor_tail(
        runtime_len,
    )
}

/// The constructor of a contract: its minted amount in the shortest
/// big-endian form.
pub open spec fn contract_constructor(c: ContractView, runtime_len: usize) -> Seq<u8> {
    constructor_code(minimal_be(minted_units(c)), runtime_len)
}

/// The `CODECOPY` in the constructor reads from the first byte after the
/// constructor (modulo 2^16), for as many bytes as `runtime_len` says.
pub proof fn lemma_constructor_copies_what_follows(amount: Seq<u8>, runtime_len: usize)
    ensures
        ({
            let code = constructor_code(amount, runtime_len);
            let p = constructor_head(amount, runtime_len).len() as int;
            &&& code.len() == constructor_len(amount, runtime_len)
            &&& code[p - 1] == opcodes::PUSH2
            &&& code[p] as nat * 256 + code[p + 1] as nat == code.len() % 65536
            &&& code[p + 2] == opcodes::PUSH1
            &&& code[p + 3] == 0
            &&& code[p + 4] == opcodes::CODECOPY
        }),
{
    let code = constructor_code(amount, runtime_len);
    let n = constructor_len(amount, runtime_len);
    let p = constructor_head(amount, runtime_len).len() as int;
    assert(code[p] == hi_byte(n));
    assert(code[p + 1] == lo_byte(n));
    assert((n % 65536) / 256 * 256 + (n % 65536) % 256 == n % 65536) by (nonlinear_arith);
}

/// Emits the constructor for `contract`, whose runtime code is
/// `runtime_len` bytes long.
#[verifier::rlimit(60)]
pub fn emit_constructor(contract: &ContractNode, runtime_len: usize) -> (code: Vec<u8>)
    requires
        contract.supply is Some,
        fits_word(minted_units(contract@)),
    ensures
        code@ == contract_constructor(contract@, runtime_len),
{
    let mut code: Vec<u8> = Vec::new();
    let supply = match &contract.supply {
        Some(f) => f.value,
        None => 0,
    };
    let decimals = match &contract.decimals {
        Some(f) => f.value,
        None => 18,
    };
    let amount = match token_units_bytes(supply, decimals) {
        Some(b) => b,
        None => {
            assert(false);
            Vec::new()
        },
    };
    proof {
        crate::codegen::utils::lemma_minimal_be_fits_word(minted_units(contract@));
    }
    let topic = event_topic("Transfer(address,address,uint256)");

    // totalSupply: SSTORE(0, amount)
    push_value(&mut code, amount.as_slice());
    code.push(opcodes::PUSH1);
    code.push(0x00);
    code.push(opcodes::SSTORE);

    // balanceOf[msg.sender] = amount, at keccak256(abi.encode(msg.sender, 5)):
    // memory[0x00..0x20] = msg.sender, memory[0x20..0x40] = 5, then SHA3(0x00, 0x40)
    code.push(opcodes::CALLER);
    code.push(opcodes::PUSH1);
    code.push(0x00);
    code.push(opcodes::MSTORE);
    code.push(opcodes::PUSH1);
    code.push(0x05);
    code.push(opcodes::PUSH1);
    code.push(0x20);
    code.push(opcodes::MSTORE);
    code.push(opcodes::PUSH1);
    code.push(0x40);
    code.push(opcodes::PUSH1);
    code.push(0x00);
    code.push(opcodes::SHA3);
    push_value(&mut code, amount.as_slice());
    code.push(opcodes::SWAP1);
    code.push(opcodes::SSTORE);

    // Transfer(address(0), msg.sender, amount): the amount in memory[0..32],
    // then LOG3(0, 32, topic, 0, msg.sender)
    push_value(&mut code, amount.as_slice());
    code.push(opcodes::PUSH1);
    code.push(0x00);
    code.push(opcodes::MSTORE);
    code.push(opcodes::CALLER);
    code.push(opcodes::PUSH1);
    code.push(0x00);
    code.push(opcodes::PUSH32);
    push_bytes(&mut code, &topic);
    code.push(opcodes::PUSH1);
    code.push(0x20);
    code.push(opcodes::PUSH1);
    code.push(0x00);
    code.push(opcodes::LOG3);

    // CODECOPY(0x00, constructor_len, runtime_len); the offset is patched
    // below, once the constructor's length is known.
    push_u64(&mut code, runtime_len as u64);
    code.push(opcodes::PUSH2);
    let offset_patch_pos = code.len();
    proof {
        assert(code@ =~= constructor_head(amount@, runtime_len));
    }
    code.push(0x00);
    code.push(0x00);
    let ghost before_tail = code@;
    code.push(opcodes::PUSH1);
    code.push(0x00);
    code.push(opcodes::CODECOPY);

    // RETURN(0x00, runtime_len)
    push_u64(&mut code, runtime_len as u64);
    code.push(opcodes::PUSH1);
    code.push(0x00);
    code.push(opcodes::RETURN);
    proof {
        assert(code@ =~= before_tail + constructor_tail(runtime_len));
    }

    let constructor_len = code.len();
    let t: usize = constructor_len % 65536;
    code.set(offset_patch_pos, (t / 256) as u8);
    code.set(offset_patch_pos + 1, (t % 256) as u8);
    proof {
        assert(code@ =~= constructor_code(amount@, runtime_len));
    }
    code
}

/// Appends `bytes` to `code`.
fn push_bytes(code: &mut Vec<u8>, bytes: &[u8])
    ensures
        final(code)@ == old(code)@ + bytes@,
{
    let ghost start = code@;
    let mut i: usize = 0;
    while i < bytes.len()
        invariant
            i <= bytes@.len(),
            code@ == start + bytes@.take(i as int),
        decreases bytes@.len() - i,
    {
        code.push(bytes[i]);
        i = i + 1;
        assert(code@ =~= start + bytes@.take(i as int));
    }
    assert(bytes@.take(bytes@.len() as int) =~= bytes@);
}

} // verus!
