//! The runtime entry point: routes a call by its 4-byte selector.
use vstd::prelude::*;
use crate::ast::ContractNode;
use crate::codegen::emitter::{st_emit, st_emit_bytes, st_jump, Emitter, EmitterState};
use crate::codegen::opcodes;
use crate::codegen::utils::{selector, selector_of};

verus! {

/// `DUP1 PUSH4 <selector> EQ PUSH2 <label> JUMPI`.
pub open spec fn selector_check_state(
    st: EmitterState,
    signature: Seq<char>,
    label: Seq<char>,
) -> EmitterState {
    st_jump(
        st_emit_bytes(st, seq![opcodes::DUP1, opcodes::PUSH4] + selector_of(signature) + seq![
            opcodes::EQ,
        ]),
        label,
        opcodes::JUMPI,
    )
}

/// Loads the selector (`CALLDATALOAD(0) >> 224`), jumps to the handler of
/// whichever of the nine ERC-20 functions it names, and reverts when none.
pub open spec fn dispatcher_state(st: EmitterState) -> EmitterState {
    let s0 = st_emit_bytes(
        st,
        seq![
            opcodes::PUSH1,
            0x00u8,
            opcodes::CALLDATALOAD,
            opcodes::PUSH1,
            0xe0u8,
            opcodes::SHR,
        ],
    );
    let s1 = selector_check_state(s0, "name()"@, "name"@);
    let s2 = selector_check_state(s1, "symbol()"@, "symbol"@);
    let s3 = selector_check_state(s2, "decimals()"@, "decimals"@);
    let s4 = selector_check_state(s3, "totalSupply()"@, "totalSupply"@);
    let s5 = selector_check_state(s4, "balanceOf(address)"@, "balanceOf"@);
    let s6 = selector_check_state(s5, "transfer(address,uint256)"@, "transfer"@);
    let s7 = selector_check_state(s6, "approve(address,uint256)"@, "approve"@);
    let s8 = selector_check_state(s7, "allowance(address,address)"@, "allowance"@);
    let s9 = selector_check_state(s8, "transferFrom(address,address,uint256)"@, "transferFrom"@);
    st_emit_bytes(s9, seq![opcodes::PUSH1, 0x00u8, opcodes::PUSH1, 0x00u8, opcodes::REVERT])
}

pub fn emit_dispatcher(emitter: &mut Emitter, _contract: &ContractNode)
    requires
        old(emitter).wf(),
    ensures
        final(emitter).wf(),
        final(emitter)@ == dispatcher_state(old(emitter)@),
{
    let ghost st = emitter@;
    emitter.emit(opcodes::PUSH1);
    emitter.emit(0x00);
    emitter.emit(opcodes::CALLDATALOAD);
    emitter.emit(opcodes::PUSH1);
    emitter.emit(0xe0);
    emitter.emit(opcodes::SHR);
    proof {
        assert(emitter@.code =~= st.code + seq![
            opcodes::PUSH1,
            0x00u8,
            opcodes::CALLDATALOAD,
            opcodes::PUSH1,
            0xe0u8,
            opcodes::SHR,
        ]);
    }
    emit_selector_check(emitter, "name()", "name");
    emit_selector_check(emitter, "symbol()", "symbol");
    emit_selector_check(emitter, "decimals()", "decimals");
    emit_selector_check(emitter, "totalSupply()", "totalSupply");
    emit_selector_check(emitter, "balanceOf(address)", "balanceOf");
    emit_selector_check(emitter, "transfer(address,uint256)", "transfer");
    emit_selector_check(emitter, "approve(address,uint256)", "approve");
    emit_selector_check(emitter, "allowance(address,address)", "allowance");
    emit_selector_check(emitter, "transferFrom(address,address,uint256)", "transferFrom");
    let ghost s3 = emitter@;
    emitter.emit(opcodes::PUSH1);
    emitter.emit(0x00);
    emitter.emit(opcodes::PUSH1);
    emitter.emit(0x00);
    emitter.emit(opcodes::REVERT);
    proof {
        assert(emitter@.code =~= s3.code + seq![
            opcodes::PUSH1,
            0x00u8,
            opcodes::PUSH1,
            0x00u8,
            opcodes::REVERT,
        ]);
    }
}

/// Emits a single selector comparison: `DUP1, PUSH4 <selector>, EQ, PUSH2 <label>, JUMPI`.
fn emit_selector_check(emitter: &mut Emitter, signature: &str, label: &str)
    requires
        old(emitter).wf(),
    ensures
        final(emitter).wf(),
        final(emitter)@ == selector_check_state(old(emitter)@, signature@, label@),
{
    let ghost st = emitter@;
    let sel = selector(signature);
    emitter.emit(opcodes::DUP1);
    emitter.emit(opcodes::PUSH4);
    emitter.emit_bytes(sel.as_slice());
    emitter.emit(opcodes::EQ);
    proof {
        assert(emitter@.code =~= st.code + (seq![opcodes::DUP1, opcodes::PUSH4] + selector_of(
            signature@,
        ) + seq![opcodes::EQ]));
    }
    emitter.emit_jumpi_to(label);
}

} // verus!
