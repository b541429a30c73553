//! A bytecode buffer with labels and forward jumps.
//!
//! Code is emitted with two zero bytes in place of each jump target; each
//! label records the offset of its `JUMPDEST`. `resolve` then writes every
//! label's offset into the jumps that target it.
use vstd::prelude::*;
use vstd::string::*;
use crate::codegen::opcodes;
use crate::errors::{error_view, CompileError, ErrorKind, ErrorView};
use crate::text::concat3;

verus! {

/// The mathematical value of an emitter: the code so far, the labels in the
/// order they were defined, and each pending jump's placeholder position and
/// target label.
pub struct EmitterState {
    pub code: Seq<u8>,
    pub labels: Seq<(Seq<char>, nat)>,
    pub jumps: Seq<(nat, Seq<char>)>,
}

pub open spec fn empty_state() -> EmitterState {
    EmitterState { code: Seq::empty(), labels: Seq::empty(), jumps: Seq::empty() }
}

pub open spec fn st_emit(st: EmitterState, b: u8) -> EmitterState {
    EmitterState { code: st.code.push(b), ..st }
}

pub open spec fn st_emit_bytes(st: EmitterState, bs: Seq<u8>) -> EmitterState {
    EmitterState { code: st.code + bs, ..st }
}

/// Defines `name` at the current offset and emits its `JUMPDEST`.
pub open spec fn st_label(st: EmitterState, name: Seq<char>) -> EmitterState {
    EmitterState {
        code: st.code.push(opcodes::JUMPDEST),
        labels: st.labels.push((name, st.code.len())),
        ..st
    }
}

/// Emits `PUSH2 00 00 op` and records a jump to `name` at the two zero bytes.
pub open spec fn st_jump(st: EmitterState, name: Seq<char>, op: u8) -> EmitterState {
    EmitterState {
        code: st.code + seq![opcodes::PUSH2, 0u8, 0u8, op],
        jumps: st.jumps.push(((st.code.len() + 1) as nat, name)),
        ..st
    }
}

/// The offset of label `name`: its latest definition wins.
pub open spec fn label_offset(labels: Seq<(Seq<char>, nat)>, name: Seq<char>) -> Option<nat>
    decreases labels.len(),
{
    if labels.len() == 0 {
        None
    } else if labels.last().0 == name {
        Some(labels.last().1)
    } else {
        label_offset(labels.drop_last(), name)
    }
}

/// The high and low byte of `v` taken as a 16-bit number.
pub open spec fn hi_byte(v: nat) -> u8 {
    ((v % 65536) / 256) as u8
}

pub open spec fn lo_byte(v: nat) -> u8 {
    ((v % 65536) % 256) as u8
}

/// `code` with the 16-bit big-endian value `v` written at `p`.
pub open spec fn patch16(code: Seq<u8>, p: nat, v: nat) -> Seq<u8> {
    code.update(p as int, hi_byte(v)).update(p as int + 1, lo_byte(v))
}

/// `code` after the first `k` jumps have had their targets written.
pub open spec fn patched(
    code: Seq<u8>,
    jumps: Seq<(nat, Seq<char>)>,
    labels: Seq<(Seq<char>, nat)>,
    k: int,
) -> Seq<u8>
    decreases k,
{
    if k <= 0 {
        code
    } else {
        let prev = patched(code, jumps, labels, k - 1);
        match label_offset(labels, jumps[k - 1].1) {
            Some(o) => patch16(prev, jumps[k - 1].0, o),
            None => prev,
        }
    }
}

/// The first jump from index `k` on whose label is not defined.
pub open spec fn first_unresolved(
    jumps: Seq<(nat, Seq<char>)>,
    labels: Seq<(Seq<char>, nat)>,
    k: int,
) -> Option<int>
    decreases jumps.len() - k,
{
    if k < 0 || k >= jumps.len() {
        None
    } else if label_offset(labels, jumps[k].1) is None {
        Some(k)
    } else {
        first_unresolved(jumps, labels, k + 1)
    }
}

/// The outcome of resolving an emitter in state `st`: the state after, and the
/// error for the first jump to an undefined label, if there is one.
pub open spec fn resolve_outcome(st: EmitterState) -> (EmitterState, Option<ErrorView>) {
    match first_unresolved(st.jumps, st.labels, 0) {
        None => (
            EmitterState { code: patched(st.code, st.jumps, st.labels, st.jumps.len() as int), ..st },
            None,
        ),
        Some(k) => (
            EmitterState { code: patched(st.code, st.jumps, st.labels, k), ..st },
            Some(
                error_view(
                    ErrorKind::SemanticError,
                    "Unresolved label '"@ + st.jumps[k].1 + "'"@,
                    0,
                    0,
                    ""@,
                ),
            ),
        ),
    }
}

/// Jump placeholders lie inside the code, in order and without overlapping;
/// every label marks a `JUMPDEST` that no placeholder covers.
pub open spec fn state_wf(st: EmitterState) -> bool {
    &&& forall|j: int| 0 <= j < st.jumps.len() ==> #[trigger] st.jumps[j].0 + 2 <= st.code.len()
    &&& forall|i: int, j: int|
        0 <= i < j < st.jumps.len() ==> #[trigger] st.jumps[i].0 + 2 <= #[trigger] st.jumps[j].0
    &&& forall|l: int|
        0 <= l < st.labels.len() ==> #[trigger] st.labels[l].1 < st.code.len()
            && st.code[st.labels[l].1 as int] == opcodes::JUMPDEST
    &&& forall|l: int, j: int|
        0 <= l < st.labels.len() && 0 <= j < st.jumps.len() ==> #[trigger] st.labels[l].1
            != #[trigger] st.jumps[j].0 && st.labels[l].1 != st.jumps[j].0 + 1
}


proof fn lemma_all_resolved(
    jumps: Seq<(nat, Seq<char>)>,
    labels: Seq<(Seq<char>, nat)>,
    k: int,
)
    requires
        0 <= k,
        first_unresolved(jumps, labels, k) is None,
    ensures
        forall|j: int| k <= j < jumps.len() ==> label_offset(labels, #[trigger] jumps[j].1) is Some,
    decreases jumps.len() - k,
{
    if k < jumps.len() {
        lemma_all_resolved(jumps, labels, k + 1);
    }
}

proof fn lemma_patched_len(
    code: Seq<u8>,
    jumps: Seq<(nat, Seq<char>)>,
    labels: Seq<(Seq<char>, nat)>,
    k: int,
)
    requires
        k <= jumps.len(),
        forall|a: int| 0 <= a < jumps.len() ==> #[trigger] jumps[a].0 + 2 <= code.len(),
    ensures
        patched(code, jumps, labels, k).len() == code.len(),
    decreases k,
{
    if k > 0 {
        lemma_patched_len(code, jumps, labels, k - 1);
    }
}

/// Patching the first `k` jumps leaves every byte outside their placeholders
/// alone.
proof fn lemma_patched_elsewhere(
    code: Seq<u8>,
    jumps: Seq<(nat, Seq<char>)>,
    labels: Seq<(Seq<char>, nat)>,
    k: int,
    x: int,
)
    requires
        0 <= k <= jumps.len(),
        0 <= x < code.len(),
        forall|a: int| 0 <= a < jumps.len() ==> #[trigger] jumps[a].0 + 2 <= code.len(),
        forall|j: int| 0 <= j < k ==> #[trigger] jumps[j].0 != x && jumps[j].0 + 1 != x,
    ensures
        patched(code, jumps, labels, k)[x] == code[x],
    decreases k,
{
    if k > 0 {
        lemma_patched_len(code, jumps, labels, k - 1);
        lemma_patched_elsewhere(code, jumps, labels, k - 1, x);
        assert(jumps[k - 1].0 != x);
    }
}

/// After the first `k` jumps are patched, each of them holds its target.
proof fn lemma_patched_targets(
    code: Seq<u8>,
    jumps: Seq<(nat, Seq<char>)>,
    labels: Seq<(Seq<char>, nat)>,
    k: int,
    j: int,
)
    requires
        0 <= j < k <= jumps.len(),
        label_offset(labels, jumps[j].1) is Some,
        forall|a: int, b: int| 0 <= a < b < jumps.len() ==> #[trigger] jumps[a].0 + 2 <= #[trigger] jumps[b].0,
        forall|a: int| 0 <= a < jumps.len() ==> #[trigger] jumps[a].0 + 2 <= code.len(),
    ensures
        ({
            let o = label_offset(labels, jumps[j].1)->0;
            let c = patched(code, jumps, labels, k);
            c[jumps[j].0 as int] == hi_byte(o) && c[jumps[j].0 as int + 1] == lo_byte(o)
        }),
    decreases k,
{
    lemma_patched_len(code, jumps, labels, k - 1);
    if j < k - 1 {
        lemma_patched_targets(code, jumps, labels, k - 1, j);
        assert(jumps[j].0 + 2 <= jumps[k - 1].0);
    }
}

/// After a successful `resolve`, every jump's two placeholder bytes hold the
/// offset (modulo 2^16, big-endian) of the label it targets, and that offset
/// holds a `JUMPDEST`.
pub proof fn lemma_resolved_jumps_reach_labels(st: EmitterState)
    requires
        state_wf(st),
        first_unresolved(st.jumps, st.labels, 0) is None,
    ensures
        forall|j: int|
            0 <= j < st.jumps.len() ==> {
                let c = resolve_outcome(st).0.code;
                &&& label_offset(st.labels, #[trigger] st.jumps[j].1) matches Some(o)
                &&& c[st.jumps[j].0 as int] == hi_byte(o)
                &&& c[st.jumps[j].0 as int + 1] == lo_byte(o)
                &&& o < c.len()
                &&& c[o as int] == opcodes::JUMPDEST
            },
{
    lemma_all_resolved(st.jumps, st.labels, 0);
    let n = st.jumps.len() as int;
    lemma_patched_len(st.code, st.jumps, st.labels, n);
    assert forall|j: int| 0 <= j < st.jumps.len() implies {
        let c = resolve_outcome(st).0.code;
        &&& label_offset(st.labels, #[trigger] st.jumps[j].1) matches Some(o)
        &&& c[st.jumps[j].0 as int] == hi_byte(o)
        &&& c[st.jumps[j].0 as int + 1] == lo_byte(o)
        &&& o < c.len()
        &&& c[o as int] == opcodes::JUMPDEST
    } by {
        assert(label_offset(st.labels, st.jumps[j].1) is Some);
        let o = label_offset(st.labels, st.jumps[j].1)->0;
        lemma_patched_targets(st.code, st.jumps, st.labels, n, j);
        lemma_label_offset_found(st.labels, st.jumps[j].1);
        let l = choose|l: int| 0 <= l < st.labels.len() && #[trigger] st.labels[l] == (st.jumps[j].1, o);
        assert(st.labels[l].1 == o);
        assert forall|q: int| 0 <= q < n implies #[trigger] st.jumps[q].0 != o && st.jumps[q].0 + 1 != o by {
            assert(st.labels[l].1 != st.jumps[q].0);
        }
        lemma_patched_elsewhere(st.code, st.jumps, st.labels, n, o as int);
    }
}

/// Resolving writes only into the jump placeholders: the code keeps its
/// length and every other byte, and the labels and jumps are unchanged.
pub proof fn lemma_resolve_patches_only_placeholders(st: EmitterState)
    requires
        state_wf(st),
    ensures
        ({
            let after = resolve_outcome(st).0;
            &&& after.code.len() == st.code.len()
            &&& after.labels == st.labels
            &&& after.jumps == st.jumps
            &&& forall|x: int|
                0 <= x < st.code.len() && (forall|j: int|
                    0 <= j < st.jumps.len() ==> #[trigger] st.jumps[j].0 != x && st.jumps[j].0 + 1
                        != x) ==> #[trigger] after.code[x] == st.code[x]
        }),
{
    let k = match first_unresolved(st.jumps, st.labels, 0) {
        Some(k) => k,
        None => st.jumps.len() as int,
    };
    lemma_first_unresolved_range(st.jumps, st.labels, 0);
    lemma_patched_len(st.code, st.jumps, st.labels, k);
    assert forall|x: int|
        0 <= x < st.code.len() && (forall|j: int|
            0 <= j < st.jumps.len() ==> #[trigger] st.jumps[j].0 != x && st.jumps[j].0 + 1 != x)
        implies #[trigger] resolve_outcome(st).0.code[x] == st.code[x] by {
        lemma_patched_elsewhere(st.code, st.jumps, st.labels, k, x);
    }
}

proof fn lemma_first_unresolved_range(
    jumps: Seq<(nat, Seq<char>)>,
    labels: Seq<(Seq<char>, nat)>,
    k: int,
)
    requires
        0 <= k,
    ensures
        first_unresolved(jumps, labels, k) matches Some(i) ==> k <= i < jumps.len(),
    decreases jumps.len() - k,
{
    if k < jumps.len() {
        lemma_first_unresolved_range(jumps, labels, k + 1);
    }
}

/// Resolving a second time changes nothing: once every jump is resolved,
/// resolving the result gives the result back.
pub proof fn lemma_resolve_idempotent(st: EmitterState)
    requires
        state_wf(st),
        first_unresolved(st.jumps, st.labels, 0) is None,
    ensures
        resolve_outcome(resolve_outcome(st).0) == resolve_outcome(st),
{
    let once = resolve_outcome(st).0;
    let n = st.jumps.len() as int;
    lemma_patched_len(st.code, st.jumps, st.labels, n);
    lemma_patched_len(once.code, st.jumps, st.labels, n);
    lemma_all_resolved(st.jumps, st.labels, 0);
    let twice = patched(once.code, st.jumps, st.labels, n);
    assert forall|x: int| 0 <= x < twice.len() implies twice[x] == once.code[x] by {
        if exists|j: int| 0 <= j < n && (st.jumps[j].0 == x || st.jumps[j].0 + 1 == x) {
            let j = choose|j: int| 0 <= j < n && (st.jumps[j].0 == x || st.jumps[j].0 + 1 == x);
            lemma_patched_targets(st.code, st.jumps, st.labels, n, j);
            lemma_patched_targets(once.code, st.jumps, st.labels, n, j);
        } else {
            lemma_patched_elsewhere(once.code, st.jumps, st.labels, n, x);
        }
    }
    assert(twice =~= once.code);
}

/// A well-formed emitter's value is a well-formed state, so the laws about
/// states apply to it.
pub proof fn lemma_wf_state(e: &Emitter)
    requires
        e.wf(),
    ensures
        state_wf(e@),
{
}

struct PendingJump {
    position: usize,
    target_label: String,
    width: usize,
}

pub struct Emitter {
    code: Vec<u8>,
    labels: Vec<(String, usize)>,
    pending_jumps: Vec<PendingJump>,
}

impl View for Emitter {
    type V = EmitterState;

    closed spec fn view(&self) -> EmitterState {
        EmitterState {
            code: self.code@,
            labels: self.labels@.map_values(|l: (String, usize)| (l.0@, l.1 as nat)),
            jumps: self.pending_jumps@.map_values(
                |j: PendingJump| (j.position as nat, j.target_label@),
            ),
        }
    }
}

proof fn lemma_label_offset_found(labels: Seq<(Seq<char>, nat)>, name: Seq<char>)
    ensures
        label_offset(labels, name) matches Some(o) ==> exists|l: int|
            0 <= l < labels.len() && #[trigger] labels[l] == (name, o),
    decreases labels.len(),
{
    if labels.len() > 0 && labels.last().0 != name {
        lemma_label_offset_found(labels.drop_last(), name);
        if let Some(o) = label_offset(labels, name) {
            let l = choose|l: int| 0 <= l < labels.drop_last().len() && #[trigger] labels.drop_last()[l] == (name, o);
            assert(labels[l] == (name, o));
        }
    }
}

impl Emitter {
    pub closed spec fn wf(&self) -> bool {
        &&& state_wf(self@)
        &&& self.labels@.len() == self@.labels.len()
        &&& self.pending_jumps@.len() == self@.jumps.len()
    }

    pub fn new() -> (e: Emitter)
        ensures
            e.wf(),
            e@ == empty_state(),
    {
        let e = Emitter { code: Vec::new(), labels: Vec::new(), pending_jumps: Vec::new() };
        proof {
            assert(e@.code =~= Seq::<u8>::empty());
            assert(e@.labels =~= Seq::<(Seq<char>, nat)>::empty());
            assert(e@.jumps =~= Seq::<(nat, Seq<char>)>::empty());
        }
        e
    }

    pub fn emit(&mut self, byte: u8)
        requires
            old(self).wf(),
        ensures
            final(self).wf(),
            final(self)@ == st_emit(old(self)@, byte),
    {
        self.code.push(byte);
        proof {
            assert(self@.labels == old(self)@.labels);
            assert(self@.jumps == old(self)@.jumps);
        }
    }

    pub fn emit_bytes(&mut self, bytes: &[u8])
        requires
            old(self).wf(),
        ensures
            final(self).wf(),
            final(self)@ == st_emit_bytes(old(self)@, bytes@),
    {
        let ghost start = self@;
        let mut i: usize = 0;
        while i < bytes.len()
            invariant
                self.wf(),
                i <= bytes@.len(),
                self@ == st_emit_bytes(start, bytes@.take(i as int)),
            decreases bytes@.len() - i,
        {
            self.code.push(bytes[i]);
            i = i + 1;
            proof {
                assert(self@.code =~= start.code + bytes@.take(i as int));
                assert(self@ == st_emit_bytes(start, bytes@.take(i as int)));
            }
        }
        assert(bytes@.take(i as int) =~= bytes@);
    }

    pub fn emit_label(&mut self, name: &str)
        requires
            old(self).wf(),
        ensures
            final(self).wf(),
            final(self)@ == st_label(old(self)@, name@),
    {
        let at = self.code.len();
        self.labels.push((String::from_str(name), at));
        self.code.push(opcodes::JUMPDEST);
        proof {
            assert(self@.labels =~= old(self)@.labels.push((name@, old(self)@.code.len())));
            assert(self@.jumps == old(self)@.jumps);
            let st = self@;
            assert forall|l: int| 0 <= l < st.labels.len() implies #[trigger] st.labels[l].1
                < st.code.len() && st.code[st.labels[l].1 as int] == opcodes::JUMPDEST by {
                if l < st.labels.len() - 1 {
                    assert(st.labels[l] == old(self)@.labels[l]);
                }
            }
            assert forall|l: int, j: int|
                0 <= l < st.labels.len() && 0 <= j < st.jumps.len() implies #[trigger] st.labels[l].1
                != #[trigger] st.jumps[j].0 && st.labels[l].1 != st.jumps[j].0 + 1 by {
                if l < st.labels.len() - 1 {
                    assert(st.labels[l] == old(self)@.labels[l]);
                } else {
                    assert(old(self)@.jumps[j].0 + 2 <= old(self)@.code.len());
                }
            }
        }
    }

    fn emit_jump_op(&mut self, label: &str, op: u8)
        requires
            old(self).wf(),
        ensures
            final(self).wf(),
            final(self)@ == st_jump(old(self)@, label@, op),
    {
        self.code.push(opcodes::PUSH2);
        let pos = self.code.len();
        self.code.push(0x00);
        self.code.push(0x00);
        self.code.push(op);
        self.pending_jumps.push(
            PendingJump { position: pos, target_label: String::from_str(label), width: 2 },
        );
        proof {
            let st = self@;
            let o = old(self)@;
            assert(st.code =~= o.code + seq![opcodes::PUSH2, 0u8, 0u8, op]);
            assert(st.jumps =~= o.jumps.push(((o.code.len() + 1) as nat, label@)));
            assert(st.labels == o.labels);
            assert forall|i: int, j: int|
                0 <= i < j < st.jumps.len() implies #[trigger] st.jumps[i].0 + 2
                <= #[trigger] st.jumps[j].0 by {
                if j < st.jumps.len() - 1 {
                    assert(st.jumps[i] == o.jumps[i]);
                    assert(st.jumps[j] == o.jumps[j]);
                } else {
                    assert(st.jumps[i] == o.jumps[i]);
                }
            }
            assert forall|j: int| 0 <= j < st.jumps.len() implies #[trigger] st.jumps[j].0 + 2
                <= st.code.len() by {
                if j < st.jumps.len() - 1 {
                    assert(st.jumps[j] == o.jumps[j]);
                }
            }
            assert forall|l: int| 0 <= l < st.labels.len() implies #[trigger] st.labels[l].1
                < st.code.len() && st.code[st.labels[l].1 as int] == opcodes::JUMPDEST by {
                assert(st.labels[l] == o.labels[l]);
            }
            assert forall|l: int, j: int|
                0 <= l < st.labels.len() && 0 <= j < st.jumps.len() implies #[trigger] st.labels[l].1
                != #[trigger] st.jumps[j].0 && st.labels[l].1 != st.jumps[j].0 + 1 by {
                assert(st.labels[l] == o.labels[l]);
                if j < st.jumps.len() - 1 {
                    assert(st.jumps[j] == o.jumps[j]);
                }
            }
        }
    }

    pub fn emit_jump_to(&mut self, label: &str)
        requires
            old(self).wf(),
        ensures
            final(self).wf(),
            final(self)@ == st_jump(old(self)@, label@, opcodes::JUMP),
    {
        self.emit_jump_op(label, opcodes::JUMP);
    }

    pub fn emit_jumpi_to(&mut self, label: &str)
        requires
            old(self).wf(),
        ensures
            final(self).wf(),
            final(self)@ == st_jump(old(self)@, label@, opcodes::JUMPI),
    {
        self.emit_jump_op(label, opcodes::JUMPI);
    }

    /// The offset of the latest definition of `name`.
    fn lookup_label(&self, name: &String) -> (r: Option<usize>)
        ensures
            match r {
                Some(o) => label_offset(self@.labels, name@) == Some(o as nat),
                None => label_offset(self@.labels, name@) is None,
            },
    {
        let ghost labels = self@.labels;
        let mut i: usize = self.labels.len();
        assert(labels.take(i as int) =~= labels);
        while i > 0
            invariant
                i <= self.labels@.len(),
                labels == self@.labels,
                labels.len() == self.labels@.len(),
                label_offset(labels, name@) == label_offset(labels.take(i as int), name@),
            decreases i,
        {
            let entry = &self.labels[i - 1];
            let ghost prefix = labels.take(i as int);
            assert(prefix.last() == (entry.0@, entry.1 as nat));
            assert(prefix.drop_last() =~= labels.take(i - 1));
            if entry.0 == *name {
                return Some(entry.1);
            }
            i = i - 1;
        }
        None
    }

    /// Writes each label's offset into the jumps that target it; fails at the
    /// first jump whose label was never defined.
    pub fn resolve(&mut self) -> (r: Result<(), CompileError>)
        requires
            old(self).wf(),
        ensures
            final(self).wf(),
            final(self)@ == resolve_outcome(old(self)@).0,
            match r {
                Ok(()) => resolve_outcome(old(self)@).1 is None,
                Err(e) => resolve_outcome(old(self)@).1 == Some(e@),
            },
    {
        let ghost st = self@;
        let mut i: usize = 0;
        while i < self.pending_jumps.len()
            invariant
                self.wf(),
                st == old(self)@,
                i <= st.jumps.len(),
                self@ == (EmitterState { code: patched(st.code, st.jumps, st.labels, i as int), ..st }),
                state_wf(st),
                self.pending_jumps@.len() == st.jumps.len(),
                first_unresolved(st.jumps, st.labels, 0) == first_unresolved(st.jumps, st.labels, i as int),
                self@.code.len() == st.code.len(),
            decreases st.jumps.len() - i,
        {
            let jump = &self.pending_jumps[i];
            assert(st.jumps[i as int] == (jump.position as nat, jump.target_label@));
            assert(st.jumps[i as int].0 + 2 <= st.code.len());
            let found = self.lookup_label(&jump.target_label);
            match found {
                None => {
                    let msg = concat3("Unresolved label '", jump.target_label.as_str(), "'");
                    return Err(CompileError::semantic(msg.as_str(), 0, 0, ""));
                },
                Some(offset) => {
                    let p = jump.position;
                    let n = self.code.len();
                    assert(p + 1 < n);
                    let t: usize = offset % 65536;
                    let hi = (t / 256) as u8;
                    let lo = (t % 256) as u8;
                    self.code.set(p, hi);
                    self.code.set(p + 1, lo);
                    proof {
                        assert(self@.code =~= patch16(
                            patched(st.code, st.jumps, st.labels, i as int),
                            st.jumps[i as int].0,
                            offset as nat,
                        ));
                    }
                    i = i + 1;
                    proof {
                        assert(self@.labels == st.labels);
                        assert(self@.jumps == st.jumps);
                    }
                },
            }
        }
        Ok(())
    }

    pub fn into_bytes(self) -> (code: Vec<u8>)
        ensures
            code@ == self@.code,
    {
        self.code
    }

    pub fn len(&self) -> (n: usize)
        ensures
            n == self@.code.len(),
    {
        self.code.len()
    }
}

} // verus!
