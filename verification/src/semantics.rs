//! The mathematical semantics of the language: a small-step machine.
//!
//! A machine configuration is a stack of control frames over an evaluation
//! state (operand stack, global scope, remaining input, collected output,
//! and a run status).  `machine_step` is the transition function; running a
//! program means iterating it from `init_machine` until a terminal
//! configuration is reached.  A loop whose condition never becomes zero
//! simply has no terminal configuration, which models the language's own
//! non-termination.
//!
//! The executable evaluator is verified to follow `machine_step` exactly,
//! one call per transition.

use crate::ast::{FalseInstruction, Span, Spanned};
use std::rc::Rc;
use vstd::prelude::*;

verus! {

/// The closed taxonomy of runtime failures.
#[derive(Clone, Copy, Debug, PartialEq, Eq, Structural)]
pub enum RuntimeErrorKind {
    StackUnderflow,
    TypeMismatch,
    IndexOutOfRange,
    UndefinedVariable,
    MisuseOfName,
    InvalidCharacterCode,
    DivisionByZero,
}

/// A concrete runtime value: an integer, or a deferred block shared with
/// the instruction tree that introduced it.
#[derive(Debug)]
pub enum FalseStoreableValue {
    StoredInteger(i32),
    StoredLambda(Rc<Vec<Spanned>>),
}

/// One entry of the operand stack: an unresolved variable letter, or a
/// stored value.
#[derive(Debug)]
pub enum FalseStackEntry {
    VariableReference(char),
    StoredValue(FalseStoreableValue),
}

impl FalseStoreableValue {
    /// The name of this value's kind, for diagnostics.
    pub fn kind_name(&self) -> &'static str {
        match self {
            FalseStoreableValue::StoredInteger(_) => "Integer",
            FalseStoreableValue::StoredLambda(_) => "Lambda",
        }
    }
}

impl FalseStackEntry {
    /// The name of this entry's kind, for diagnostics.
    pub fn kind_name(&self) -> &'static str {
        match self {
            FalseStackEntry::VariableReference(_) => "VariableReference",
            FalseStackEntry::StoredValue(v) => v.kind_name(),
        }
    }
}

/// One control frame: a block being executed from a given index, or a
/// pending loop test that pops the condition result once the condition
/// block above it has finished.
#[derive(Debug)]
pub enum Frame {
    Block(Rc<Vec<Spanned>>, usize),
    LoopCheck(Rc<Vec<Spanned>>, Rc<Vec<Spanned>>, Span),
}

/// The status of a run: still going, finished cleanly, or stopped at the
/// first runtime error (its span and kind).
#[derive(Clone, Copy, Debug, PartialEq, Eq, Structural)]
pub enum RunStatus {
    Running,
    Done,
    Failed(Span, RuntimeErrorKind),
}

/// The evaluation state below the control frames: the operand stack, the
/// 26 global variable slots (`a` at index 0), the injected input bytes with
/// a cursor of how many were already consumed, the collected output, and
/// the run status.
#[verifier::ext_equal]
pub struct StateModel {
    pub stack: Seq<FalseStackEntry>,
    pub scope: Seq<Option<FalseStoreableValue>>,
    pub input: Seq<u8>,
    pub cursor: nat,
    pub output: Seq<char>,
    pub status: RunStatus,
}

/// A whole machine configuration: control frames (last entry is the one
/// being executed) over an evaluation state.
#[verifier::ext_equal]
pub struct MachineModel {
    pub frames: Seq<Frame>,
    pub state: StateModel,
}

/// A configuration from which no further work happens.
pub open spec fn terminal(m: MachineModel) -> bool {
    !(m.state.status is Running)
}

/// Mark the state as failed at the given instruction.
pub open spec fn fail(st: StateModel, span: Span, kind: RuntimeErrorKind) -> StateModel {
    StateModel { status: RunStatus::Failed(span, kind), ..st }
}

pub open spec fn push_entry(st: StateModel, e: FalseStackEntry) -> StateModel {
    StateModel { stack: st.stack.push(e), ..st }
}

/// Pop the top entry, which must be a stored integer; on an empty stack the
/// state fails with `StackUnderflow`, on any other entry with
/// `TypeMismatch`.
pub open spec fn pop_int_model(st: StateModel, span: Span) -> (Option<i32>, StateModel) {
    if st.stack.len() == 0 {
        (None::<i32>, fail(st, span, RuntimeErrorKind::StackUnderflow))
    } else {
        match st.stack.last() {
            FalseStackEntry::StoredValue(FalseStoreableValue::StoredInteger(i)) => (
                Some(i),
                StateModel { stack: st.stack.drop_last(), ..st },
            ),
            _ => (None::<i32>, fail(st, span, RuntimeErrorKind::TypeMismatch)),
        }
    }
}

/// Whether an instruction is one of the eight binary operators.
pub open spec fn is_binary(instr: FalseInstruction) -> bool {
    ||| instr is Add
    ||| instr is Sub
    ||| instr is Mul
    ||| instr is Div
    ||| instr is BitAnd
    ||| instr is BitOr
    ||| instr is Gt
    ||| instr is Eq
}

/// Integer division as the evaluator performs it: truncated towards zero,
/// with the one overflowing quotient wrapping back to `i32::MIN`.
/// Meaningful only for `a != 0`.
pub open spec fn wrapped_div(b: i32, a: i32) -> i32 {
    if a == 0 {
        0
    } else {
        match b.checked_div(a) {
            Some(r) => r,
            None => i32::MIN,
        }
    }
}

/// The result of a binary operator, `b` being the earlier-pushed operand.
/// Arithmetic wraps around on overflow.
pub open spec fn binary_eval(instr: FalseInstruction, b: i32, a: i32) -> i32 {
    match instr {
        FalseInstruction::Add => vstd::wrapping::i32_specs::wrapping_add(b, a),
        FalseInstruction::Sub => vstd::wrapping::i32_specs::wrapping_sub(b, a),
        FalseInstruction::Mul => vstd::wrapping::i32_specs::wrapping_mul(b, a),
        FalseInstruction::Div => wrapped_div(b, a),
        FalseInstruction::BitAnd => b & a,
        FalseInstruction::BitOr => b | a,
        FalseInstruction::Gt => if b > a { -1i32 } else { 0i32 },
        FalseInstruction::Eq => if b == a { -1i32 } else { 0i32 },
        _ => 0,
    }
}

/// The result of a unary operator: negation or bitwise complement, both
/// wrapping.
pub open spec fn unary_eval(instr: FalseInstruction, a: i32) -> i32 {
    match instr {
        FalseInstruction::Neg => vstd::wrapping::i32_specs::wrapping_sub(0i32, a),
        FalseInstruction::BitNot => !a,
        _ => 0,
    }
}

/// Pop two integers and push the operator's result.  The later-pushed
/// operand comes off first; a zero divisor fails with `DivisionByZero`.
pub open spec fn binary_step(st: StateModel, instr: FalseInstruction, span: Span) -> StateModel {
    let (ra, st1) = pop_int_model(st, span);
    match ra {
        None => st1,
        Some(a) => {
            let (rb, st2) = pop_int_model(st1, span);
            match rb {
                None => st2,
                Some(b) => {
                    if instr is Div && a == 0 {
                        fail(st2, span, RuntimeErrorKind::DivisionByZero)
                    } else {
                        push_entry(
                            st2,
                            FalseStackEntry::StoredValue(
                                FalseStoreableValue::StoredInteger(binary_eval(instr, b, a)),
                            ),
                        )
                    }
                },
            }
        },
    }
}

/// Pop one integer and push the operator's result.
pub open spec fn unary_step(st: StateModel, instr: FalseInstruction, span: Span) -> StateModel {
    let (ra, st1) = pop_int_model(st, span);
    match ra {
        None => st1,
        Some(a) => push_entry(
            st1,
            FalseStackEntry::StoredValue(
                FalseStoreableValue::StoredInteger(unary_eval(instr, a)),
            ),
        ),
    }
}

/// Whether a character is one of the 26 variable letters, `a` through `z`
/// by code point.
pub open spec fn is_letter(c: char) -> bool {
    97 <= (c as u32) && (c as u32) <= 122
}

/// The scope slot of a variable letter: `a` is 0, `z` is 25.
pub open spec fn letter_index(c: char) -> int {
    (c as u32) - 97
}

/// The digit characters of a natural number, most significant first.
pub open spec fn dec_digits(n: nat) -> Seq<char>
    decreases n,
{
    if n < 10 {
        seq![digit_char(n)]
    } else {
        dec_digits(n / 10).push(digit_char(n % 10))
    }
}

/// The character for a single decimal digit.
pub open spec fn digit_char(d: nat) -> char {
    if d == 0 {
        '0'
    } else if d == 1 {
        '1'
    } else if d == 2 {
        '2'
    } else if d == 3 {
        '3'
    } else if d == 4 {
        '4'
    } else if d == 5 {
        '5'
    } else if d == 6 {
        '6'
    } else if d == 7 {
        '7'
    } else if d == 8 {
        '8'
    } else {
        '9'
    }
}

/// The base-10 text of an integer, with a leading minus sign if negative.
pub open spec fn int_to_dec(v: int) -> Seq<char> {
    if v >= 0 {
        dec_digits(v as nat)
    } else {
        seq!['-'] + dec_digits((-v) as nat)
    }
}

/// The code point a popped integer denotes for character output: its value
/// read as an unsigned 32-bit number.
pub open spec fn char_code(v: i32) -> u32 {
    if v >= 0 {
        v as u32
    } else {
        (v + 0x1_0000_0000) as u32
    }
}

/// The effect of one non-structural step of an instruction on the state:
/// the frames it pushes (bottom first) and the new state.
pub open spec fn instr_effect(st: StateModel, instr: FalseInstruction, span: Span) -> (
    Seq<Frame>,
    StateModel,
) {
    let none = Seq::<Frame>::empty();
    match instr {
        FalseInstruction::Name(c) => (none, push_entry(st, FalseStackEntry::VariableReference(c))),
        FalseInstruction::PushInt(v) => (
            none,
            push_entry(st, FalseStackEntry::StoredValue(FalseStoreableValue::StoredInteger(v))),
        ),
        FalseInstruction::PushChar(b) => (
            none,
            push_entry(
                st,
                FalseStackEntry::StoredValue(FalseStoreableValue::StoredInteger(b as i32)),
            ),
        ),
        FalseInstruction::Dup => {
            if st.stack.len() == 0 {
                (none, fail(st, span, RuntimeErrorKind::StackUnderflow))
            } else {
                (none, push_entry(st, st.stack.last()))
            }
        },
        FalseInstruction::Drop => {
            if st.stack.len() == 0 {
                (none, fail(st, span, RuntimeErrorKind::StackUnderflow))
            } else {
                (none, StateModel { stack: st.stack.drop_last(), ..st })
            }
        },
        FalseInstruction::Swap => {
            if st.stack.len() < 2 {
                (none, fail(st, span, RuntimeErrorKind::StackUnderflow))
            } else {
                let n = st.stack.len() as int;
                (
                    none,
                    StateModel {
                        stack: st.stack.update(n - 2, st.stack[n - 1]).update(
                            n - 1,
                            st.stack[n - 2],
                        ),
                        ..st
                    },
                )
            }
        },
        FalseInstruction::Rot => {
            if st.stack.len() < 3 {
                (none, fail(st, span, RuntimeErrorKind::StackUnderflow))
            } else {
                let n = st.stack.len() as int;
                (
                    none,
                    StateModel {
                        stack: st.stack.update(n - 3, st.stack[n - 2]).update(
                            n - 2,
                            st.stack[n - 1],
                        ).update(n - 1, st.stack[n - 3]),
                        ..st
                    },
                )
            }
        },
        FalseInstruction::Pick => {
            let (r, st1) = pop_int_model(st, span);
            match r {
                None => (none, st1),
                Some(i) => {
                    if i < 0 || i >= st1.stack.len() {
                        (none, fail(st1, span, RuntimeErrorKind::IndexOutOfRange))
                    } else {
                        (none, push_entry(st1, st1.stack[st1.stack.len() - 1 - i]))
                    }
                },
            }
        },
        FalseInstruction::Add => (none, binary_step(st, instr, span)),
        FalseInstruction::Sub => (none, binary_step(st, instr, span)),
        FalseInstruction::Mul => (none, binary_step(st, instr, span)),
        FalseInstruction::Div => (none, binary_step(st, instr, span)),
        FalseInstruction::BitAnd => (none, binary_step(st, instr, span)),
        FalseInstruction::BitOr => (none, binary_step(st, instr, span)),
        FalseInstruction::Gt => (none, binary_step(st, instr, span)),
        FalseInstruction::Eq => (none, binary_step(st, instr, span)),
        FalseInstruction::Neg => (none, unary_step(st, instr, span)),
        FalseInstruction::BitNot => (none, unary_step(st, instr, span)),
        FalseInstruction::Lambda(body) => (
            none,
            push_entry(st, FalseStackEntry::StoredValue(FalseStoreableValue::StoredLambda(body))),
        ),
        FalseInstruction::Execute => {
            if st.stack.len() == 0 {
                (none, fail(st, span, RuntimeErrorKind::StackUnderflow))
            } else {
                match st.stack.last() {
                    FalseStackEntry::StoredValue(FalseStoreableValue::StoredLambda(body)) => (
                        seq![Frame::Block(body, 0usize)],
                        StateModel { stack: st.stack.drop_last(), ..st },
                    ),
                    _ => (none, fail(st, span, RuntimeErrorKind::TypeMismatch)),
                }
            }
        },
        FalseInstruction::ConditionalExecute(body) => {
            let (r, st1) = pop_int_model(st, span);
            match r {
                None => (none, st1),
                Some(i) => {
                    if i != 0 {
                        (seq![Frame::Block(body, 0usize)], st1)
                    } else {
                        (none, st1)
                    }
                },
            }
        },
        FalseInstruction::WhileLoop(cond, body) => (
            seq![Frame::LoopCheck(cond, body, span), Frame::Block(cond, 0usize)],
            st,
        ),
        FalseInstruction::Store => {
            if st.stack.len() == 0 {
                (none, fail(st, span, RuntimeErrorKind::StackUnderflow))
            } else {
                match st.stack.last() {
                    FalseStackEntry::VariableReference(c) => {
                        if !is_letter(c) {
                            (none, fail(st, span, RuntimeErrorKind::MisuseOfName))
                        } else {
                            let st1 = StateModel { stack: st.stack.drop_last(), ..st };
                            if st1.stack.len() == 0 {
                                (none, fail(st1, span, RuntimeErrorKind::StackUnderflow))
                            } else {
                                match st1.stack.last() {
                                    FalseStackEntry::StoredValue(v) => (
                                        none,
                                        StateModel {
                                            stack: st1.stack.drop_last(),
                                            scope: st1.scope.update(letter_index(c), Some(v)),
                                            ..st1
                                        },
                                    ),
                                    FalseStackEntry::VariableReference(_) => (
                                        none,
                                        fail(st1, span, RuntimeErrorKind::MisuseOfName),
                                    ),
                                }
                            }
                        }
                    },
                    FalseStackEntry::StoredValue(_) => (
                        none,
                        fail(st, span, RuntimeErrorKind::MisuseOfName),
                    ),
                }
            }
        },
        FalseInstruction::Fetch => {
            if st.stack.len() == 0 {
                (none, fail(st, span, RuntimeErrorKind::StackUnderflow))
            } else {
                match st.stack.last() {
                    FalseStackEntry::VariableReference(c) => {
                        if !is_letter(c) {
                            (none, fail(st, span, RuntimeErrorKind::MisuseOfName))
                        } else {
                            let st1 = StateModel { stack: st.stack.drop_last(), ..st };
                            match st1.scope[letter_index(c)] {
                                Some(v) => (
                                    none,
                                    push_entry(st1, FalseStackEntry::StoredValue(v)),
                                ),
                                None => (
                                    none,
                                    fail(st1, span, RuntimeErrorKind::UndefinedVariable),
                                ),
                            }
                        }
                    },
                    FalseStackEntry::StoredValue(_) => (
                        none,
                        fail(st, span, RuntimeErrorKind::MisuseOfName),
                    ),
                }
            }
        },
        FalseInstruction::ReadChar => {
            if st.cursor < st.input.len() {
                (
                    none,
                    StateModel {
                        cursor: st.cursor + 1,
                        ..push_entry(
                            st,
                            FalseStackEntry::StoredValue(
                                FalseStoreableValue::StoredInteger(
                                    st.input[st.cursor as int] as i32,
                                ),
                            ),
                        )
                    },
                )
            } else {
                (
                    none,
                    push_entry(
                        st,
                        FalseStackEntry::StoredValue(FalseStoreableValue::StoredInteger(-1i32)),
                    ),
                )
            }
        },
        FalseInstruction::WriteChar => {
            let (r, st1) = pop_int_model(st, span);
            match r {
                None => (none, st1),
                Some(v) => {
                    if vstd::utf8::is_scalar(char_code(v)) {
                        (
                            none,
                            StateModel {
                                output: st1.output.push(char_code(v) as char),
                                ..st1
                            },
                        )
                    } else {
                        (none, fail(st1, span, RuntimeErrorKind::InvalidCharacterCode))
                    }
                },
            }
        },
        FalseInstruction::WriteStr(s) => (
            none,
            StateModel { output: st.output + s@, ..st },
        ),
        FalseInstruction::WriteInt => {
            let (r, st1) = pop_int_model(st, span);
            match r {
                None => (none, st1),
                Some(v) => (
                    none,
                    StateModel { output: st1.output + int_to_dec(v as int), ..st1 },
                ),
            }
        },
        FalseInstruction::Flush => (none, st),
    }
}

/// The effect of the topmost control frame: the frames that replace it
/// (bottom first) and the new state.
pub open spec fn frame_effect(top: Frame, st: StateModel) -> (Seq<Frame>, StateModel) {
    match top {
        Frame::Block(body, idx) => {
            if idx >= body@.len() {
                (Seq::<Frame>::empty(), st)
            } else {
                let sp = body@[idx as int];
                let (sfx, st2) = instr_effect(st, sp.instruction, sp.span);
                (seq![Frame::Block(body, (idx + 1) as usize)] + sfx, st2)
            }
        },
        Frame::LoopCheck(cond, body, span) => {
            let (r, st1) = pop_int_model(st, span);
            match r {
                None => (Seq::<Frame>::empty(), st1),
                Some(i) => {
                    if i == 0 {
                        (Seq::<Frame>::empty(), st1)
                    } else {
                        (
                            seq![
                                Frame::LoopCheck(cond, body, span),
                                Frame::Block(cond, 0usize),
                                Frame::Block(body, 0usize),
                            ],
                            st1,
                        )
                    }
                },
            }
        },
    }
}

/// One transition of the machine.  Terminal configurations step to
/// themselves; a running configuration without frames finishes; otherwise
/// the topmost frame acts.
pub open spec fn machine_step(m: MachineModel) -> MachineModel {
    if terminal(m) {
        m
    } else if m.frames.len() == 0 {
        MachineModel { frames: m.frames, state: StateModel { status: RunStatus::Done, ..m.state } }
    } else {
        let (sfx, st2) = frame_effect(m.frames.last(), m.state);
        MachineModel { frames: m.frames.drop_last() + sfx, state: st2 }
    }
}

/// `n` transitions of the machine.
pub open spec fn machine_steps(n: nat, m: MachineModel) -> MachineModel
    decreases n,
{
    if n == 0 {
        m
    } else {
        machine_steps((n - 1) as nat, machine_step(m))
    }
}

/// The state a run starts from: empty stack, no variable set, the injected
/// input not yet read, and the output buffer as handed in.
pub open spec fn init_state(input: Seq<u8>, output: Seq<char>) -> StateModel {
    StateModel {
        stack: Seq::<FalseStackEntry>::empty(),
        scope: Seq::new(26, |i: int| None::<FalseStoreableValue>),
        input,
        cursor: 0,
        output,
        status: RunStatus::Running,
    }
}

/// The configuration a run of a whole program starts from.
pub open spec fn init_machine(program: Rc<Vec<Spanned>>, input: Seq<u8>, output: Seq<char>) -> MachineModel {
    MachineModel { frames: seq![Frame::Block(program, 0usize)], state: init_state(input, output) }
}

/// Stepping `n + 1` times is stepping `n` times and then once more.
pub proof fn lemma_steps_snoc(n: nat, m: MachineModel)
    ensures
        machine_steps(n + 1, m) == machine_step(machine_steps(n, m)),
    decreases n,
{
    assert(machine_steps(n + 1, m) == machine_steps(n, machine_step(m)));
    if n > 0 {
        lemma_steps_snoc((n - 1) as nat, machine_step(m));
        assert(machine_steps(n, m) == machine_steps((n - 1) as nat, machine_step(m)));
    }
}

/// Step counts add up.
pub proof fn lemma_steps_add(a: nat, b: nat, m: MachineModel)
    ensures
        machine_steps(a + b, m) == machine_steps(b, machine_steps(a, m)),
    decreases a,
{
    if a > 0 {
        lemma_steps_add((a - 1) as nat, b, machine_step(m));
    }
}

/// A terminal configuration never changes again.
pub proof fn lemma_terminal_stutter(n: nat, m: MachineModel)
    requires
        terminal(m),
    ensures
        machine_steps(n, m) == m,
    decreases n,
{
    if n > 0 {
        lemma_terminal_stutter((n - 1) as nat, m);
    }
}

/// The machine is deterministic: whatever step counts two observers use,
/// a run that has reached a terminal configuration has reached the same
/// one.
pub proof fn lemma_terminal_unique(n1: nat, n2: nat, m: MachineModel)
    requires
        terminal(machine_steps(n1, m)),
        terminal(machine_steps(n2, m)),
    ensures
        machine_steps(n1, m) == machine_steps(n2, m),
{
    if n1 <= n2 {
        lemma_terminal_stable(n1, n2, m);
    } else {
        lemma_terminal_stable(n2, n1, m);
    }
}

/// Once a run has reached a terminal configuration, every later step count
/// sees the same configuration.
pub proof fn lemma_terminal_stable(k: nat, n: nat, m: MachineModel)
    requires
        k <= n,
        terminal(machine_steps(k, m)),
    ensures
        machine_steps(n, m) == machine_steps(k, m),
{
    lemma_steps_add(k, (n - k) as nat, m);
    lemma_terminal_stutter((n - k) as nat, machine_steps(k, m));
}

} // verus!
