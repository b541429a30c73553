//! Handlers for the nine ERC-20 functions, and the shared revert.
//!
//! Storage: slot 0 holds `totalSupply`; `balanceOf[a]` lives at
//! `keccak256(abi.encode(a, 5))` and `allowance[o][s]` at
//! `keccak256(abi.encode(s, keccak256(abi.encode(o, 6))))`. Memory
//! `0x00..0x40` is scratch space for those hashes and for return values.
use vstd::prelude::*;
use crate::ast::{ContractNode, ContractView};
use crate::codegen::constructor::{decimals_of, transfer_topic};
use crate::codegen::emitter::{st_emit_bytes, st_jump, st_label, Emitter, EmitterState};
use crate::codegen::opcodes;
use crate::codegen::utils::{event_topic, keccak256_digest, push_u64, push_u64_instr};
use crate::scaffold::{default_symbol, default_symbol_of};

verus! {

/// Stack `[a]` to stack `[keccak256(abi.encode(a, 5))]`: the balance slot of `a`.
pub open spec fn balance_slot() -> Seq<u8> {
    seq![
        opcodes::PUSH1, 0x00u8, opcodes::MSTORE,
        opcodes::PUSH1, 0x05u8, opcodes::PUSH1, 0x20u8, opcodes::MSTORE,
        opcodes::PUSH1, 0x40u8, opcodes::PUSH1, 0x00u8, opcodes::SHA3,
    ]
}

/// Returns the word on top of the stack.
pub open spec fn return_word() -> Seq<u8> {
    seq![
        opcodes::PUSH1, 0x00u8, opcodes::MSTORE,
        opcodes::PUSH1, 0x20u8, opcodes::PUSH1, 0x00u8, opcodes::RETURN,
    ]
}

/// Returns `true`.
pub open spec fn return_true() -> Seq<u8> {
    seq![opcodes::PUSH1, 0x01u8] + return_word()
}

/// The topic of the ERC-20 `Approval` event.
pub open spec fn approval_topic() -> Seq<u8> {
    keccak256_digest(vstd::utf8::encode_utf8("Approval(address,address,uint256)"@))
}

/// Stores `data` in 32-byte words at memory `at`, `at + 32`, ...; the last
/// word is padded with zeros.
pub open spec fn store_words(data: Seq<u8>, at: nat) -> Seq<u8>
    decreases data.len(),
{
    if data.len() == 0 {
        Seq::empty()
    } else {
        let n: nat = if data.len() < 32 { data.len() } else { 32 };
        seq![opcodes::PUSH32] + data.take(n as int) + Seq::new((32 - n) as nat, |i: int| 0u8)
            + push_u64_instr(at as u64) + seq![opcodes::MSTORE] + store_words(
            data.skip(n as int),
            at + 32,
        )
    }
}

/// The number of 32-byte words that `len` bytes take.
pub open spec fn word_count(len: nat) -> nat {
    (len + 31) / 32
}

/// Returns `data` ABI-encoded as a `string`: the offset 32, the length, then
/// the bytes padded to whole words.
pub open spec fn return_string(data: Seq<u8>) -> Seq<u8> {
    seq![opcodes::PUSH1, 0x20u8, opcodes::PUSH1, 0x00u8, opcodes::MSTORE] + push_u64_instr(
        data.len() as u64,
    ) + seq![opcodes::PUSH1, 0x20u8, opcodes::MSTORE] + store_words(data, 0x40) + push_u64_instr(
        (0x40 + 32 * word_count(data.len())) as u64,
    ) + seq![opcodes::PUSH1, 0x00u8, opcodes::RETURN]
}

/// The UTF-8 bytes of the token's name.
pub open spec fn name_bytes(c: ContractView) -> Seq<u8> {
    vstd::utf8::encode_utf8(c.name)
}

/// The UTF-8 bytes of the token's symbol: the declared one, or the first
/// three characters of the name, upper-cased.
pub open spec fn symbol_bytes(c: ContractView) -> Seq<u8> {
    match c.symbol {
        Some((s, _)) => vstd::utf8::encode_utf8(s),
        None => vstd::utf8::encode_utf8(default_symbol_of(c.name)),
    }
}

/// Strings short enough that their lengths and memory offsets are numbers
/// of the machine.
pub open spec fn fits_memory(data: Seq<u8>) -> bool {
    data.len() + 128 <= usize::MAX
}

/// `name()`: the name as an ABI string.
pub open spec fn name_state(st: EmitterState, c: ContractView) -> EmitterState {
    st_emit_bytes(st_label(st, "name"@), return_string(name_bytes(c)))
}

/// `symbol()`: the symbol as an ABI string.
pub open spec fn symbol_state(st: EmitterState, c: ContractView) -> EmitterState {
    st_emit_bytes(st_label(st, "symbol"@), return_string(symbol_bytes(c)))
}

/// `decimals()`: the declared decimals, or 18.
pub open spec fn decimals_state(st: EmitterState, c: ContractView) -> EmitterState {
    st_emit_bytes(
        st_label(st, "decimals"@),
        push_u64_instr(decimals_of(c)) + return_word(),
    )
}

/// `totalSupply()`: returns storage slot 0.
pub open spec fn total_supply_state(st: EmitterState) -> EmitterState {
    st_emit_bytes(
        st_label(st, "totalSupply"@),
        seq![opcodes::PUSH1, 0x00u8, opcodes::SLOAD] + return_word(),
    )
}

/// `balanceOf(address)`: returns the balance slot of the argument.
pub open spec fn balance_of_state(st: EmitterState) -> EmitterState {
    st_emit_bytes(
        st_label(st, "balanceOf"@),
        seq![opcodes::PUSH1, 0x04u8, opcodes::CALLDATALOAD] + balance_slot() + seq![opcodes::SLOAD]
            + return_word(),
    )
}

/// Stack `[bal, slot, amt]`: revert when `amt > bal`.
pub open spec fn check_funds() -> Seq<u8> {
    seq![opcodes::DUP1, opcodes::DUP4, opcodes::GT]
}

/// Stack `[bal, slot, amt]` to `[amt]`, storing `bal - amt` at `slot`.
pub open spec fn debit() -> Seq<u8> {
    seq![opcodes::DUP3, opcodes::SWAP1, opcodes::SUB, opcodes::SWAP1, opcodes::SSTORE]
}

/// Stack `[slot, amt]` to `[amt]`, adding `amt` to the word at `slot`.
pub open spec fn credit() -> Seq<u8> {
    seq![opcodes::DUP1, opcodes::SLOAD, opcodes::DUP3, opcodes::ADD, opcodes::SWAP1, opcodes::SSTORE]
}

/// Stack `[amt]`: puts `amt` in memory and logs the event with `topic` and
/// the two topics already pushed by `topics`.
pub open spec fn log_event(topics: Seq<u8>, topic: Seq<u8>) -> Seq<u8> {
    seq![opcodes::PUSH1, 0x00u8, opcodes::MSTORE] + topics + seq![opcodes::PUSH32] + topic + seq![
        opcodes::PUSH1,
        0x20u8,
        opcodes::PUSH1,
        0x00u8,
        opcodes::LOG3,
    ]
}

/// `transfer(to, amount)`: moves `amount` from the caller to `to` (reverting
/// when the caller has less), logs `Transfer(caller, to, amount)` and
/// returns `true`.
pub open spec fn transfer_state(st: EmitterState) -> EmitterState {
    let a = seq![opcodes::PUSH1, 0x24u8, opcodes::CALLDATALOAD, opcodes::CALLER] + balance_slot()
        + seq![opcodes::DUP1, opcodes::SLOAD] + check_funds();
    let b = debit() + seq![opcodes::PUSH1, 0x04u8, opcodes::CALLDATALOAD] + balance_slot()
        + credit() + log_event(
        seq![opcodes::PUSH1, 0x04u8, opcodes::CALLDATALOAD, opcodes::CALLER],
        transfer_topic(),
    ) + return_true();
    st_emit_bytes(st_jump(st_emit_bytes(st_label(st, "transfer"@), a), "revert"@, opcodes::JUMPI), b)
}

/// Stack `[o]` and a spender in memory word 0 once `spender_to_mem` has run:
/// the allowance slot of owner `o` and that spender.
pub open spec fn allowance_slot(spender_to_mem: Seq<u8>) -> Seq<u8> {
    seq![
        opcodes::PUSH1, 0x00u8, opcodes::MSTORE,
        opcodes::PUSH1, 0x06u8, opcodes::PUSH1, 0x20u8, opcodes::MSTORE,
        opcodes::PUSH1, 0x40u8, opcodes::PUSH1, 0x00u8, opcodes::SHA3,
        opcodes::PUSH1, 0x20u8, opcodes::MSTORE,
    ] + spender_to_mem + seq![opcodes::PUSH1, 0x40u8, opcodes::PUSH1, 0x00u8, opcodes::SHA3]
}

/// `approve(spender, amount)`: sets the caller's allowance for `spender`,
/// logs `Approval(caller, spender, amount)` and returns `true`.
pub open spec fn approve_state(st: EmitterState) -> EmitterState {
    st_emit_bytes(
        st_label(st, "approve"@),
        seq![opcodes::CALLER] + allowance_slot(
            seq![opcodes::PUSH1, 0x04u8, opcodes::CALLDATALOAD, opcodes::PUSH1, 0x00u8, opcodes::MSTORE],
        ) + seq![opcodes::PUSH1, 0x24u8, opcodes::CALLDATALOAD, opcodes::SWAP1, opcodes::SSTORE]
            + seq![opcodes::PUSH1, 0x24u8, opcodes::CALLDATALOAD] + log_event(
            seq![opcodes::PUSH1, 0x04u8, opcodes::CALLDATALOAD, opcodes::CALLER],
            approval_topic(),
        ) + return_true(),
    )
}

/// `allowance(owner, spender)`: returns the allowance.
pub open spec fn allowance_state(st: EmitterState) -> EmitterState {
    st_emit_bytes(
        st_label(st, "allowance"@),
        seq![opcodes::PUSH1, 0x04u8, opcodes::CALLDATALOAD] + allowance_slot(
            seq![opcodes::PUSH1, 0x24u8, opcodes::CALLDATALOAD, opcodes::PUSH1, 0x00u8, opcodes::MSTORE],
        ) + seq![opcodes::SLOAD] + return_word(),
    )
}

/// `transferFrom(from, to, amount)`: spends `amount` of the caller's
/// allowance from `from` and moves it from `from` to `to` (reverting when
/// either falls short), logs `Transfer(from, to, amount)` and returns `true`.
pub open spec fn transfer_from_state(st: EmitterState) -> EmitterState {
    let a = seq![opcodes::PUSH1, 0x44u8, opcodes::CALLDATALOAD, opcodes::PUSH1, 0x04u8, opcodes::CALLDATALOAD]
        + allowance_slot(seq![opcodes::CALLER, opcodes::PUSH1, 0x00u8, opcodes::MSTORE]) + seq![
        opcodes::DUP1,
        opcodes::SLOAD,
    ] + check_funds();
    let b = debit() + seq![opcodes::PUSH1, 0x04u8, opcodes::CALLDATALOAD] + balance_slot() + seq![
        opcodes::DUP1,
        opcodes::SLOAD,
    ] + check_funds();
    let c = debit() + seq![opcodes::PUSH1, 0x24u8, opcodes::CALLDATALOAD] + balance_slot()
        + credit() + log_event(
        seq![opcodes::PUSH1, 0x24u8, opcodes::CALLDATALOAD, opcodes::PUSH1, 0x04u8, opcodes::CALLDATALOAD],
        transfer_topic(),
    ) + return_true();
    let s1 = st_jump(st_emit_bytes(st_label(st, "transferFrom"@), a), "revert"@, opcodes::JUMPI);
    st_emit_bytes(st_jump(st_emit_bytes(s1, b), "revert"@, opcodes::JUMPI), c)
}

/// The shared failure exit: `REVERT(0, 0)`.
pub open spec fn revert_state(st: EmitterState) -> EmitterState {
    st_emit_bytes(
        st_label(st, "revert"@),
        seq![opcodes::PUSH1, 0x00u8, opcodes::PUSH1, 0x00u8, opcodes::REVERT],
    )
}

fn emit_return_string(emitter: &mut Emitter, data: &[u8])
    requires
        old(emitter).wf(),
        fits_memory(data@),
    ensures
        final(emitter).wf(),
        final(emitter)@ == st_emit_bytes(old(emitter)@, return_string(data@)),
{
    let ghost st = emitter@;
    let n = data.len();
    emitter.emit_bytes(&[opcodes::PUSH1, 0x20, opcodes::PUSH1, 0x00, opcodes::MSTORE]);
    let mut code: Vec<u8> = Vec::new();
    push_u64(&mut code, n as u64);
    emitter.emit_bytes(code.as_slice());
    emitter.emit_bytes(&[opcodes::PUSH1, 0x20, opcodes::MSTORE]);
    let ghost words_start = emitter@;
    let mut i: usize = 0;
    let mut at: usize = 0x40;
    assert(data@.skip(0) =~= data@);
    while i < n
        invariant
            emitter.wf(),
            n == data@.len(),
            fits_memory(data@),
            i <= n,
            i < n ==> at == 0x40 + i,
            at <= 0x40 + n + 32,
            i % 32 == 0 || i == n,
            emitter@.labels == words_start.labels,
            emitter@.jumps == words_start.jumps,
            words_start.code + store_words(data@, 0x40) == emitter@.code + store_words(
                data@.skip(i as int),
                at as nat,
            ),
        decreases n - i,
    {
        let k: usize = if n - i < 32 { n - i } else { 32 };
        let ghost rest = data@.skip(i as int);
        let mut chunk: Vec<u8> = Vec::new();
        let mut j: usize = 0;
        while j < 32
            invariant
                n == data@.len(),
                i + k <= n,
                k <= 32,
                j <= 32,
                chunk@.len() == j,
                forall|x: int| 0 <= x < j && x < k ==> #[trigger] chunk@[x] == data@[i + x],
                forall|x: int| k <= x < j ==> #[trigger] chunk@[x] == 0u8,
            decreases 32 - j,
        {
            if j < k {
                chunk.push(data[i + j]);
            } else {
                chunk.push(0);
            }
            j = j + 1;
        }
        let mut word: Vec<u8> = Vec::new();
        word.push(opcodes::PUSH32);
        let mut m: usize = 0;
        while m < 32
            invariant
                chunk@.len() == 32,
                m <= 32,
                word@ == seq![opcodes::PUSH32] + chunk@.take(m as int),
            decreases 32 - m,
        {
            word.push(chunk[m]);
            m = m + 1;
            assert(word@ =~= seq![opcodes::PUSH32] + chunk@.take(m as int));
        }
        let ghost w32 = word@;
        push_u64(&mut word, at as u64);
        word.push(opcodes::MSTORE);
        proof {
            let kk = k as nat;
            assert(rest.len() > 0);
            assert(kk == (if rest.len() < 32 { rest.len() } else { 32 }));
            assert(chunk@.take(32) =~= chunk@);
            assert(chunk@ =~= rest.take(kk as int) + Seq::new((32 - kk) as nat, |x: int| 0u8));
            assert(word@ =~= seq![opcodes::PUSH32] + rest.take(kk as int) + Seq::new(
                (32 - kk) as nat,
                |x: int| 0u8,
            ) + push_u64_instr(at as u64) + seq![opcodes::MSTORE]);
            assert(rest.skip(kk as int) =~= data@.skip(i + k));
        }
        let ghost prev = emitter@.code;
        emitter.emit_bytes(word.as_slice());
        proof {
            assert(prev + store_words(rest, at as nat) =~= emitter@.code + store_words(
                data@.skip(i + k),
                (at + 32) as nat,
            ));
        }
        i = i + k;
        at = at + 32;
    }
    assert(data@.skip(n as int) =~= Seq::<u8>::empty());
    let ghost words_end = emitter@;
    let mut tail: Vec<u8> = Vec::new();
    assert(32 * ((n + 31) / 32) <= n + 31) by (nonlinear_arith);
    push_u64(&mut tail, (0x40 + 32 * ((n + 31) / 32)) as u64);
    tail.push(opcodes::PUSH1);
    tail.push(0x00);
    tail.push(opcodes::RETURN);
    emitter.emit_bytes(tail.as_slice());
    proof {
        assert(code@ =~= push_u64_instr(n as u64));
        assert(emitter@.code =~= st.code + return_string(data@));
    }
}

pub fn emit_name(emitter: &mut Emitter, contract: &ContractNode)
    requires
        old(emitter).wf(),
        fits_memory(name_bytes(contract@)),
    ensures
        final(emitter).wf(),
        final(emitter)@ == name_state(old(emitter)@, contract@),
{
    emitter.emit_label("name");
    emit_return_string(emitter, contract.name.as_str().as_bytes());
}

pub fn emit_symbol(emitter: &mut Emitter, contract: &ContractNode)
    requires
        old(emitter).wf(),
        fits_memory(symbol_bytes(contract@)),
    ensures
        final(emitter).wf(),
        final(emitter)@ == symbol_state(old(emitter)@, contract@),
{
    emitter.emit_label("symbol");
    match &contract.symbol {
        Some(f) => emit_return_string(emitter, f.value.as_str().as_bytes()),
        None => {
            let s = default_symbol(contract.name.as_str());
            emit_return_string(emitter, s.as_str().as_bytes());
        },
    }
}

pub fn emit_decimals(emitter: &mut Emitter, contract: &ContractNode)
    requires
        old(emitter).wf(),
    ensures
        final(emitter).wf(),
        final(emitter)@ == decimals_state(old(emitter)@, contract@),
{
    emitter.emit_label("decimals");
    let decimals = match &contract.decimals {
        Some(f) => f.value,
        None => 18,
    };
    let mut code: Vec<u8> = Vec::new();
    push_u64(&mut code, decimals);
    code.push(opcodes::PUSH1);
    code.push(0x00);
    code.push(opcodes::MSTORE);
    code.push(opcodes::PUSH1);
    code.push(0x20);
    code.push(opcodes::PUSH1);
    code.push(0x00);
    code.push(opcodes::RETURN);
    assert(code@ =~= push_u64_instr(decimals) + return_word());
    emitter.emit_bytes(code.as_slice());
}

pub fn emit_total_supply(emitter: &mut Emitter)
    requires
        old(emitter).wf(),
    ensures
        final(emitter).wf(),
        final(emitter)@ == total_supply_state(old(emitter)@),
{
    emitter.emit_label("totalSupply");
    let ghost st = emitter@;
    // SLOAD slot 0, then return it
    emitter.emit_bytes(&[
        opcodes::PUSH1, 0x00, opcodes::SLOAD,
        opcodes::PUSH1, 0x00, opcodes::MSTORE,
        opcodes::PUSH1, 0x20, opcodes::PUSH1, 0x00, opcodes::RETURN,
    ]);
    proof {
        assert(emitter@.code =~= st.code + (seq![opcodes::PUSH1, 0x00u8, opcodes::SLOAD]
            + return_word()));
    }
}

pub fn emit_balance_of(emitter: &mut Emitter)
    requires
        old(emitter).wf(),
    ensures
        final(emitter).wf(),
        final(emitter)@ == balance_of_state(old(emitter)@),
{
    emitter.emit_label("balanceOf");
    let ghost st = emitter@;
    // the address argument, its balance slot, SLOAD, and return it
    emitter.emit_bytes(&[
        opcodes::PUSH1, 0x04, opcodes::CALLDATALOAD,
        opcodes::PUSH1, 0x00, opcodes::MSTORE,
        opcodes::PUSH1, 0x05, opcodes::PUSH1, 0x20, opcodes::MSTORE,
        opcodes::PUSH1, 0x40, opcodes::PUSH1, 0x00, opcodes::SHA3,
        opcodes::SLOAD,
        opcodes::PUSH1, 0x00, opcodes::MSTORE,
        opcodes::PUSH1, 0x20, opcodes::PUSH1, 0x00, opcodes::RETURN,
    ]);
    proof {
        assert(emitter@.code =~= st.code + (seq![opcodes::PUSH1, 0x04u8, opcodes::CALLDATALOAD]
            + balance_slot() + seq![opcodes::SLOAD] + return_word()));
    }
}

pub fn emit_transfer(emitter: &mut Emitter)
    requires
        old(emitter).wf(),
    ensures
        final(emitter).wf(),
        final(emitter)@ == transfer_state(old(emitter)@),
{
    let topic = event_topic("Transfer(address,address,uint256)");
    emitter.emit_label("transfer");
    let ghost s0 = emitter@;
    // amount, the caller's balance slot and balance; revert if it is short
    emitter.emit_bytes(&[
        opcodes::PUSH1, 0x24, opcodes::CALLDATALOAD, opcodes::CALLER,
        opcodes::PUSH1, 0x00, opcodes::MSTORE,
        opcodes::PUSH1, 0x05, opcodes::PUSH1, 0x20, opcodes::MSTORE,
        opcodes::PUSH1, 0x40, opcodes::PUSH1, 0x00, opcodes::SHA3,
        opcodes::DUP1, opcodes::SLOAD, opcodes::DUP1, opcodes::DUP4, opcodes::GT,
    ]);
    proof {
        assert(emitter@.code =~= s0.code + (seq![opcodes::PUSH1, 0x24u8, opcodes::CALLDATALOAD,
            opcodes::CALLER] + balance_slot() + seq![opcodes::DUP1, opcodes::SLOAD] + check_funds()));
    }
    emitter.emit_jumpi_to("revert");
    let ghost s1 = emitter@;
    // debit the caller, credit `to`
    emitter.emit_bytes(&[
        opcodes::DUP3, opcodes::SWAP1, opcodes::SUB, opcodes::SWAP1, opcodes::SSTORE,
        opcodes::PUSH1, 0x04, opcodes::CALLDATALOAD,
        opcodes::PUSH1, 0x00, opcodes::MSTORE,
        opcodes::PUSH1, 0x05, opcodes::PUSH1, 0x20, opcodes::MSTORE,
        opcodes::PUSH1, 0x40, opcodes::PUSH1, 0x00, opcodes::SHA3,
        opcodes::DUP1, opcodes::SLOAD, opcodes::DUP3, opcodes::ADD, opcodes::SWAP1, opcodes::SSTORE,
        // Transfer(caller, to, amount)
        opcodes::PUSH1, 0x00, opcodes::MSTORE,
        opcodes::PUSH1, 0x04, opcodes::CALLDATALOAD, opcodes::CALLER, opcodes::PUSH32,
    ]);
    emitter.emit_bytes(&topic);
    emitter.emit_bytes(&[
        opcodes::PUSH1, 0x20, opcodes::PUSH1, 0x00, opcodes::LOG3,
        opcodes::PUSH1, 0x01,
        opcodes::PUSH1, 0x00, opcodes::MSTORE,
        opcodes::PUSH1, 0x20, opcodes::PUSH1, 0x00, opcodes::RETURN,
    ]);
    proof {
        assert(emitter@.code =~= s1.code + (debit() + seq![opcodes::PUSH1, 0x04u8,
            opcodes::CALLDATALOAD] + balance_slot() + credit() + log_event(
            seq![opcodes::PUSH1, 0x04u8, opcodes::CALLDATALOAD, opcodes::CALLER],
            transfer_topic(),
        ) + return_true()));
    }
}

pub fn emit_approve(emitter: &mut Emitter)
    requires
        old(emitter).wf(),
    ensures
        final(emitter).wf(),
        final(emitter)@ == approve_state(old(emitter)@),
{
    let topic = event_topic("Approval(address,address,uint256)");
    emitter.emit_label("approve");
    let ghost s0 = emitter@;
    // allowance[caller][spender] = amount
    emitter.emit_bytes(&[
        opcodes::CALLER,
        opcodes::PUSH1, 0x00, opcodes::MSTORE,
        opcodes::PUSH1, 0x06, opcodes::PUSH1, 0x20, opcodes::MSTORE,
        opcodes::PUSH1, 0x40, opcodes::PUSH1, 0x00, opcodes::SHA3,
        opcodes::PUSH1, 0x20, opcodes::MSTORE,
        opcodes::PUSH1, 0x04, opcodes::CALLDATALOAD, opcodes::PUSH1, 0x00, opcodes::MSTORE,
        opcodes::PUSH1, 0x40, opcodes::PUSH1, 0x00, opcodes::SHA3,
        opcodes::PUSH1, 0x24, opcodes::CALLDATALOAD, opcodes::SWAP1, opcodes::SSTORE,
        // Approval(caller, spender, amount)
        opcodes::PUSH1, 0x24, opcodes::CALLDATALOAD,
        opcodes::PUSH1, 0x00, opcodes::MSTORE,
        opcodes::PUSH1, 0x04, opcodes::CALLDATALOAD, opcodes::CALLER, opcodes::PUSH32,
    ]);
    emitter.emit_bytes(&topic);
    emitter.emit_bytes(&[
        opcodes::PUSH1, 0x20, opcodes::PUSH1, 0x00, opcodes::LOG3,
        opcodes::PUSH1, 0x01,
        opcodes::PUSH1, 0x00, opcodes::MSTORE,
        opcodes::PUSH1, 0x20, opcodes::PUSH1, 0x00, opcodes::RETURN,
    ]);
    proof {
        assert(emitter@.code =~= s0.code + (seq![opcodes::CALLER] + allowance_slot(
            seq![opcodes::PUSH1, 0x04u8, opcodes::CALLDATALOAD, opcodes::PUSH1, 0x00u8, opcodes::MSTORE],
        ) + seq![opcodes::PUSH1, 0x24u8, opcodes::CALLDATALOAD, opcodes::SWAP1, opcodes::SSTORE]
            + seq![opcodes::PUSH1, 0x24u8, opcodes::CALLDATALOAD] + log_event(
            seq![opcodes::PUSH1, 0x04u8, opcodes::CALLDATALOAD, opcodes::CALLER],
            approval_topic(),
        ) + return_true()));
    }
}

pub fn emit_allowance(emitter: &mut Emitter)
    requires
        old(emitter).wf(),
    ensures
        final(emitter).wf(),
        final(emitter)@ == allowance_state(old(emitter)@),
{
    emitter.emit_label("allowance");
    let ghost s0 = emitter@;
    emitter.emit_bytes(&[
        opcodes::PUSH1, 0x04, opcodes::CALLDATALOAD,
        opcodes::PUSH1, 0x00, opcodes::MSTORE,
        opcodes::PUSH1, 0x06, opcodes::PUSH1, 0x20, opcodes::MSTORE,
        opcodes::PUSH1, 0x40, opcodes::PUSH1, 0x00, opcodes::SHA3,
        opcodes::PUSH1, 0x20, opcodes::MSTORE,
        opcodes::PUSH1, 0x24, opcodes::CALLDATALOAD, opcodes::PUSH1, 0x00, opcodes::MSTORE,
        opcodes::PUSH1, 0x40, opcodes::PUSH1, 0x00, opcodes::SHA3,
        opcodes::SLOAD,
        opcodes::PUSH1, 0x00, opcodes::MSTORE,
        opcodes::PUSH1, 0x20, opcodes::PUSH1, 0x00, opcodes::RETURN,
    ]);
    proof {
        assert(emitter@.code =~= s0.code + (seq![opcodes::PUSH1, 0x04u8, opcodes::CALLDATALOAD]
            + allowance_slot(
            seq![opcodes::PUSH1, 0x24u8, opcodes::CALLDATALOAD, opcodes::PUSH1, 0x00u8, opcodes::MSTORE],
        ) + seq![opcodes::SLOAD] + return_word()));
    }
}

pub fn emit_transfer_from(emitter: &mut Emitter)
    requires
        old(emitter).wf(),
    ensures
        final(emitter).wf(),
        final(emitter)@ == transfer_from_state(old(emitter)@),
{
    let topic = event_topic("Transfer(address,address,uint256)");
    emitter.emit_label("transferFrom");
    let ghost s0 = emitter@;
    // amount, allowance[from][caller]; revert if it is short
    emitter.emit_bytes(&[
        opcodes::PUSH1, 0x44, opcodes::CALLDATALOAD, opcodes::PUSH1, 0x04, opcodes::CALLDATALOAD,
        opcodes::PUSH1, 0x00, opcodes::MSTORE,
        opcodes::PUSH1, 0x06, opcodes::PUSH1, 0x20, opcodes::MSTORE,
        opcodes::PUSH1, 0x40, opcodes::PUSH1, 0x00, opcodes::SHA3,
        opcodes::PUSH1, 0x20, opcodes::MSTORE,
        opcodes::CALLER, opcodes::PUSH1, 0x00, opcodes::MSTORE,
        opcodes::PUSH1, 0x40, opcodes::PUSH1, 0x00, opcodes::SHA3,
        opcodes::DUP1, opcodes::SLOAD, opcodes::DUP1, opcodes::DUP4, opcodes::GT,
    ]);
    proof {
        assert(emitter@.code =~= s0.code + (seq![opcodes::PUSH1, 0x44u8, opcodes::CALLDATALOAD,
            opcodes::PUSH1, 0x04u8, opcodes::CALLDATALOAD] + allowance_slot(
            seq![opcodes::CALLER, opcodes::PUSH1, 0x00u8, opcodes::MSTORE],
        ) + seq![opcodes::DUP1, opcodes::SLOAD] + check_funds()));
    }
    emitter.emit_jumpi_to("revert");
    let ghost s1 = emitter@;
    // spend the allowance; `from`'s balance slot and balance; revert if short
    emitter.emit_bytes(&[
        opcodes::DUP3, opcodes::SWAP1, opcodes::SUB, opcodes::SWAP1, opcodes::SSTORE,
        opcodes::PUSH1, 0x04, opcodes::CALLDATALOAD,
        opcodes::PUSH1, 0x00, opcodes::MSTORE,
        opcodes::PUSH1, 0x05, opcodes::PUSH1, 0x20, opcodes::MSTORE,
        opcodes::PUSH1, 0x40, opcodes::PUSH1, 0x00, opcodes::SHA3,
        opcodes::DUP1, opcodes::SLOAD, opcodes::DUP1, opcodes::DUP4, opcodes::GT,
    ]);
    proof {
        assert(emitter@.code =~= s1.code + (debit() + seq![opcodes::PUSH1, 0x04u8,
            opcodes::CALLDATALOAD] + balance_slot() + seq![opcodes::DUP1, opcodes::SLOAD]
            + check_funds()));
    }
    emitter.emit_jumpi_to("revert");
    let ghost s2 = emitter@;
    // debit `from`, credit `to`, log Transfer(from, to, amount)
    emitter.emit_bytes(&[
        opcodes::DUP3, opcodes::SWAP1, opcodes::SUB, opcodes::SWAP1, opcodes::SSTORE,
        opcodes::PUSH1, 0x24, opcodes::CALLDATALOAD,
        opcodes::PUSH1, 0x00, opcodes::MSTORE,
        opcodes::PUSH1, 0x05, opcodes::PUSH1, 0x20, opcodes::MSTORE,
        opcodes::PUSH1, 0x40, opcodes::PUSH1, 0x00, opcodes::SHA3,
        opcodes::DUP1, opcodes::SLOAD, opcodes::DUP3, opcodes::ADD, opcodes::SWAP1, opcodes::SSTORE,
        opcodes::PUSH1, 0x00, opcodes::MSTORE,
        opcodes::PUSH1, 0x24, opcodes::CALLDATALOAD, opcodes::PUSH1, 0x04, opcodes::CALLDATALOAD,
        opcodes::PUSH32,
    ]);
    emitter.emit_bytes(&topic);
    emitter.emit_bytes(&[
        opcodes::PUSH1, 0x20, opcodes::PUSH1, 0x00, opcodes::LOG3,
        opcodes::PUSH1, 0x01,
        opcodes::PUSH1, 0x00, opcodes::MSTORE,
        opcodes::PUSH1, 0x20, opcodes::PUSH1, 0x00, opcodes::RETURN,
    ]);
    proof {
        assert(emitter@.code =~= s2.code + (debit() + seq![opcodes::PUSH1, 0x24u8,
            opcodes::CALLDATALOAD] + balance_slot() + credit() + log_event(
            seq![opcodes::PUSH1, 0x24u8, opcodes::CALLDATALOAD, opcodes::PUSH1, 0x04u8, opcodes::CALLDATALOAD],
            transfer_topic(),
        ) + return_true()));
    }
}

pub fn emit_revert(emitter: &mut Emitter)
    requires
        old(emitter).wf(),
    ensures
        final(emitter).wf(),
        final(emitter)@ == revert_state(old(emitter)@),
{
    emitter.emit_label("revert");
    let ghost s0 = emitter@;
    emitter.emit_bytes(&[opcodes::PUSH1, 0x00, opcodes::PUSH1, 0x00, opcodes::REVERT]);
    proof {
        assert(emitter@.code =~= s0.code + seq![opcodes::PUSH1, 0x00u8, opcodes::PUSH1, 0x00u8, opcodes::REVERT]);
    }
}

} // verus!
