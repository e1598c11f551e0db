//! Language-level properties, proved against the semantic machine.
//!
//! Each lemma states a guarantee of the language for every program of the
//! given shape, every starting state, and every input: operand order of
//! arithmetic, stack discipline of the shuffling operators, the
//! store/fetch round trip, and conditional gating.

use crate::ast::{FalseInstruction, Span, Spanned};
use crate::semantics::{
    fail, instr_effect, int_to_dec, is_letter, lemma_terminal_stutter, letter_index, machine_step,
    machine_steps, push_entry, terminal, FalseStackEntry, FalseStoreableValue, Frame, MachineModel,
    RunStatus, RuntimeErrorKind, StateModel,
};
use std::rc::Rc;
use vstd::prelude::*;

verus! {

/// A stored integer as a stack entry.
pub open spec fn int_entry(v: i32) -> FalseStackEntry {
    FalseStackEntry::StoredValue(FalseStoreableValue::StoredInteger(v))
}

/// Stack discipline: each stack-shuffling operator applied to a stack with
/// fewer entries than it needs fails with `StackUnderflow` and touches
/// nothing else.
pub proof fn lemma_stack_discipline(st: StateModel, span: Span)
    ensures
        st.stack.len() == 0 ==> instr_effect(st, FalseInstruction::Dup, span).1 == fail(
            st,
            span,
            RuntimeErrorKind::StackUnderflow,
        ),
        st.stack.len() < 2 ==> instr_effect(st, FalseInstruction::Swap, span).1 == fail(
            st,
            span,
            RuntimeErrorKind::StackUnderflow,
        ),
        st.stack.len() < 3 ==> instr_effect(st, FalseInstruction::Rot, span).1 == fail(
            st,
            span,
            RuntimeErrorKind::StackUnderflow,
        ),
        st.stack.len() == 0 ==> instr_effect(st, FalseInstruction::Pick, span).1 == fail(
            st,
            span,
            RuntimeErrorKind::StackUnderflow,
        ),
{
}

/// Arithmetic operand order: the two-push program `x y -` leaves exactly
/// `x - y` on the stack (the earlier-pushed operand is the left-hand
/// side), changing nothing else, whenever the difference fits in 32 bits.
pub proof fn lemma_arithmetic_operand_order_sub(
    prog: Rc<Vec<Spanned>>,
    x: i32,
    y: i32,
    st: StateModel,
)
    requires
        prog@.len() == 3,
        prog@[0].instruction == FalseInstruction::PushInt(x),
        prog@[1].instruction == FalseInstruction::PushInt(y),
        prog@[2].instruction == FalseInstruction::Sub,
        st.status is Running,
        i32::MIN <= x - y <= i32::MAX,
    ensures
        ({
            let fin = machine_steps(5, MachineModel { frames: seq![Frame::Block(prog, 0usize)], state: st });
            &&& terminal(fin)
            &&& fin.state.status is Done
            &&& fin.state.stack =~= st.stack.push(int_entry((x - y) as i32))
            &&& fin.state.output == st.output
            &&& fin.state.scope == st.scope
        }),
{
    let m0 = MachineModel { frames: seq![Frame::Block(prog, 0usize)], state: st };
    let m1 = machine_step(m0);
    assert(machine_steps(5, m0) == machine_steps(4, m1));
    assert(m1.frames =~= seq![Frame::Block(prog, 1usize)]);
    let m2 = machine_step(m1);
    assert(machine_steps(4, m1) == machine_steps(3, m2));
    assert(m2.frames =~= seq![Frame::Block(prog, 2usize)]);
    assert(m2.state.stack =~= st.stack.push(int_entry(x)).push(int_entry(y)));
    let m3 = machine_step(m2);
    assert(machine_steps(3, m2) == machine_steps(2, m3));
    assert(m3.frames =~= seq![Frame::Block(prog, 3usize)]);
    assert(m3.state.stack =~= st.stack.push(int_entry((x - y) as i32)));
    let m4 = machine_step(m3);
    assert(machine_steps(2, m3) == machine_steps(1, m4));
    assert(m4.frames =~= Seq::<Frame>::empty());
    let m5 = machine_step(m4);
    assert(machine_steps(1, m4) == machine_steps(0, m5));
    assert(m5.state.status is Done);
}

/// Arithmetic operand order for division: `x y /` leaves the truncated
/// quotient `x / y` on the stack whenever `y` is nonzero and the quotient
/// fits; with `y = 0` the run fails with `DivisionByZero`.
pub proof fn lemma_arithmetic_operand_order_div(
    prog: Rc<Vec<Spanned>>,
    x: i32,
    y: i32,
    st: StateModel,
)
    requires
        prog@.len() == 3,
        prog@[0].instruction == FalseInstruction::PushInt(x),
        prog@[1].instruction == FalseInstruction::PushInt(y),
        prog@[2].instruction == FalseInstruction::Div,
        st.status is Running,
    ensures
        ({
            let fin = machine_steps(5, MachineModel { frames: seq![Frame::Block(prog, 0usize)], state: st });
            &&& terminal(fin)
            &&& (y != 0 ==> fin.state.status is Done && fin.state.stack =~= st.stack.push(
                int_entry(crate::semantics::wrapped_div(x, y)),
            ) && fin.state.output == st.output)
            &&& (y == 0 ==> fin.state.status == RunStatus::Failed(
                prog@[2].span,
                RuntimeErrorKind::DivisionByZero,
            ) && fin.state.output == st.output)
        }),
{
    let m0 = MachineModel { frames: seq![Frame::Block(prog, 0usize)], state: st };
    let m1 = machine_step(m0);
    assert(machine_steps(5, m0) == machine_steps(4, m1));
    assert(m1.frames =~= seq![Frame::Block(prog, 1usize)]);
    let m2 = machine_step(m1);
    assert(machine_steps(4, m1) == machine_steps(3, m2));
    assert(m2.frames =~= seq![Frame::Block(prog, 2usize)]);
    assert(m2.state.stack =~= st.stack.push(int_entry(x)).push(int_entry(y)));
    let m3 = machine_step(m2);
    assert(machine_steps(3, m2) == machine_steps(2, m3));
    if y != 0 {
        assert(m3.frames =~= seq![Frame::Block(prog, 3usize)]);
        assert(m3.state.stack =~= st.stack.push(int_entry(crate::semantics::wrapped_div(x, y))));
        let m4 = machine_step(m3);
        assert(machine_steps(2, m3) == machine_steps(1, m4));
        assert(m4.frames =~= Seq::<Frame>::empty());
        let m5 = machine_step(m4);
        assert(machine_steps(1, m4) == machine_steps(0, m5));
        assert(m5.state.status is Done);
    } else {
        assert(m3.state.status == RunStatus::Failed(
            prog@[2].span,
            RuntimeErrorKind::DivisionByZero,
        ));
        lemma_terminal_stutter(2, m3);
        assert(machine_steps(2, m3) == m3);
    }
}

/// Store/fetch round trip: from any running state, `v n: n;.` stores `v`
/// under the letter `n`, fetches it back, and appends exactly the decimal
/// text of `v` to the output, leaving the operand stack as it was.
pub proof fn lemma_store_fetch_round_trip(
    prog: Rc<Vec<Spanned>>,
    v: i32,
    n: char,
    st: StateModel,
)
    requires
        prog@.len() == 6,
        prog@[0].instruction == FalseInstruction::PushInt(v),
        prog@[1].instruction == FalseInstruction::Name(n),
        prog@[2].instruction == FalseInstruction::Store,
        prog@[3].instruction == FalseInstruction::Name(n),
        prog@[4].instruction == FalseInstruction::Fetch,
        prog@[5].instruction == FalseInstruction::WriteInt,
        is_letter(n),
        st.status is Running,
        st.scope.len() == 26,
    ensures
        ({
            let fin = machine_steps(8, MachineModel { frames: seq![Frame::Block(prog, 0usize)], state: st });
            &&& terminal(fin)
            &&& fin.state.status is Done
            &&& fin.state.output == st.output + int_to_dec(v as int)
            &&& fin.state.stack =~= st.stack
            &&& fin.state.scope =~= st.scope.update(
                letter_index(n),
                Some(FalseStoreableValue::StoredInteger(v)),
            )
        }),
{
    let m0 = MachineModel { frames: seq![Frame::Block(prog, 0usize)], state: st };
    let m1 = machine_step(m0);
    assert(machine_steps(8, m0) == machine_steps(7, m1));
    assert(m1.frames =~= seq![Frame::Block(prog, 1usize)]);
    assert(m1.state.stack =~= st.stack.push(int_entry(v)));
    let m2 = machine_step(m1);
    assert(machine_steps(7, m1) == machine_steps(6, m2));
    assert(m2.frames =~= seq![Frame::Block(prog, 2usize)]);
    assert(m2.state.stack =~= st.stack.push(int_entry(v)).push(
        FalseStackEntry::VariableReference(n),
    ));
    let m3 = machine_step(m2);
    assert(machine_steps(6, m2) == machine_steps(5, m3));
    assert(m3.frames =~= seq![Frame::Block(prog, 3usize)]);
    assert(m3.state.stack =~= st.stack);
    assert(m3.state.scope =~= st.scope.update(
        letter_index(n),
        Some(FalseStoreableValue::StoredInteger(v)),
    ));
    let m4 = machine_step(m3);
    assert(machine_steps(5, m3) == machine_steps(4, m4));
    assert(m4.frames =~= seq![Frame::Block(prog, 4usize)]);
    assert(m4.state.stack =~= st.stack.push(FalseStackEntry::VariableReference(n)));
    let m5 = machine_step(m4);
    assert(machine_steps(4, m4) == machine_steps(3, m5));
    assert(m5.frames =~= seq![Frame::Block(prog, 5usize)]);
    assert(m5.state.stack =~= st.stack.push(int_entry(v)));
    let m6 = machine_step(m5);
    assert(machine_steps(3, m5) == machine_steps(2, m6));
    assert(m6.frames =~= seq![Frame::Block(prog, 6usize)]);
    assert(m6.state.stack =~= st.stack);
    assert(m6.state.output == st.output + int_to_dec(v as int));
    let m7 = machine_step(m6);
    assert(machine_steps(2, m6) == machine_steps(1, m7));
    assert(m7.frames =~= Seq::<Frame>::empty());
    let m8 = machine_step(m7);
    assert(machine_steps(1, m7) == machine_steps(0, m8));
    assert(m8.state.status is Done);
}

/// Running with one already-exhausted block frame waiting below behaves
/// like running without it: two extra transitions pop the spent frame and
/// finish, and the terminal state is the same.
pub proof fn lemma_run_with_exhausted_frame_below(
    b: Rc<Vec<Spanned>>,
    i: usize,
    fs: Seq<Frame>,
    st: StateModel,
    n: nat,
)
    requires
        i >= b@.len(),
        terminal(machine_steps(n, MachineModel { frames: fs, state: st })),
    ensures
        terminal(
            machine_steps(
                n + 2,
                MachineModel { frames: seq![Frame::Block(b, i)] + fs, state: st },
            ),
        ),
        machine_steps(
            n + 2,
            MachineModel { frames: seq![Frame::Block(b, i)] + fs, state: st },
        ).state == machine_steps(n, MachineModel { frames: fs, state: st }).state,
    decreases n,
{
    let solo = MachineModel { frames: fs, state: st };
    let comp = MachineModel { frames: seq![Frame::Block(b, i)] + fs, state: st };
    if !(st.status is Running) {
        lemma_terminal_stutter(n, solo);
        lemma_terminal_stutter(n + 2, comp);
    } else if fs.len() == 0 {
        if n == 0 {
            assert(machine_steps(0, solo) == solo);
            assert(false);
        }
        let solo1 = machine_step(solo);
        assert(machine_steps(n, solo) == machine_steps((n - 1) as nat, solo1));
        lemma_terminal_stutter((n - 1) as nat, solo1);
        let comp1 = machine_step(comp);
        assert(comp1.frames =~= Seq::<Frame>::empty());
        assert(comp1.state == st);
        let comp2 = machine_step(comp1);
        assert(comp2.state == solo1.state);
        assert(machine_steps(n + 2, comp) == machine_steps((n + 1) as nat, comp1));
        assert(machine_steps((n + 1) as nat, comp1) == machine_steps(n, comp2));
        lemma_terminal_stutter(n, comp2);
    } else {
        if n == 0 {
            assert(machine_steps(0, solo) == solo);
            assert(false);
        }
        let solo1 = machine_step(solo);
        let comp1 = machine_step(comp);
        assert((seq![Frame::Block(b, i)] + fs).last() == fs.last());
        assert((seq![Frame::Block(b, i)] + fs).drop_last() =~= seq![Frame::Block(b, i)]
            + fs.drop_last());
        assert(comp1.frames =~= seq![Frame::Block(b, i)] + solo1.frames);
        assert(comp1.state == solo1.state);
        assert(machine_steps(n, solo) == machine_steps((n - 1) as nat, solo1));
        lemma_run_with_exhausted_frame_below(b, i, solo1.frames, solo1.state, (n - 1) as nat);
        assert(machine_steps(n + 2, comp) == machine_steps((n + 1) as nat, comp1));
        assert(machine_steps((n + 1) as nat, comp1) == machine_steps(
            ((n - 1) + 2) as nat,
            MachineModel { frames: seq![Frame::Block(b, i)] + solo1.frames, state: solo1.state },
        ));
    }
}

/// Conditional gating, taken branch: pushing a nonzero condition in front
/// of a guarded block behaves exactly like running the block alone from
/// the same state — the condition is consumed and everything else of the
/// terminal state agrees, four transitions later.
pub proof fn lemma_conditional_executes(
    prog: Rc<Vec<Spanned>>,
    body: Rc<Vec<Spanned>>,
    c: i32,
    st: StateModel,
    n: nat,
)
    requires
        prog@.len() == 2,
        prog@[0].instruction == FalseInstruction::PushInt(c),
        c != 0,
        prog@[1].instruction == FalseInstruction::ConditionalExecute(body),
        st.status is Running,
        terminal(machine_steps(n, MachineModel { frames: seq![Frame::Block(body, 0usize)], state: st })),
    ensures
        ({
            let solo = machine_steps(
                n,
                MachineModel { frames: seq![Frame::Block(body, 0usize)], state: st },
            );
            let full = machine_steps(
                n + 4,
                MachineModel { frames: seq![Frame::Block(prog, 0usize)], state: st },
            );
            terminal(full) && full.state == solo.state
        }),
{
    let m0 = MachineModel { frames: seq![Frame::Block(prog, 0usize)], state: st };
    let m1 = machine_step(m0);
    assert(machine_steps(n + 4, m0) == machine_steps(n + 3, m1));
    assert(m1.frames =~= seq![Frame::Block(prog, 1usize)]);
    assert(m1.state =~= push_entry(st, int_entry(c)));
    let m2 = machine_step(m1);
    assert(machine_steps(n + 3, m1) == machine_steps(n + 2, m2));
    assert(m2.frames =~= seq![Frame::Block(prog, 2usize)] + seq![Frame::Block(body, 0usize)]);
    assert(m2.state =~= st);
    lemma_run_with_exhausted_frame_below(prog, 2, seq![Frame::Block(body, 0usize)], st, n);
}

/// Conditional gating, skipped branch: with a zero condition the guarded
/// block never runs, and four transitions finish the program with the
/// stack, scope, and output exactly as they were.
pub proof fn lemma_conditional_skips(
    prog: Rc<Vec<Spanned>>,
    body: Rc<Vec<Spanned>>,
    st: StateModel,
)
    requires
        prog@.len() == 2,
        prog@[0].instruction == FalseInstruction::PushInt(0i32),
        prog@[1].instruction == FalseInstruction::ConditionalExecute(body),
        st.status is Running,
    ensures
        ({
            let fin = machine_steps(
                4,
                MachineModel { frames: seq![Frame::Block(prog, 0usize)], state: st },
            );
            fin == (MachineModel {
                frames: Seq::<Frame>::empty(),
                state: StateModel { status: RunStatus::Done, ..st },
            })
        }),
{
    let m0 = MachineModel { frames: seq![Frame::Block(prog, 0usize)], state: st };
    let m1 = machine_step(m0);
    assert(machine_steps(4, m0) == machine_steps(3, m1));
    assert(m1.frames =~= seq![Frame::Block(prog, 1usize)]);
    let m2 = machine_step(m1);
    assert(machine_steps(3, m1) == machine_steps(2, m2));
    assert(m2.frames =~= seq![Frame::Block(prog, 2usize)]);
    assert(m2.state =~= st);
    let m3 = machine_step(m2);
    assert(machine_steps(2, m2) == machine_steps(1, m3));
    assert(m3.frames =~= Seq::<Frame>::empty());
    let m4 = machine_step(m3);
    assert(machine_steps(1, m3) == machine_steps(0, m4));
    assert(machine_steps(4, m0) =~= MachineModel {
        frames: Seq::<Frame>::empty(),
        state: StateModel { status: RunStatus::Done, ..st },
    });
}

/// A loop whose condition block pushes a literal zero terminates at once:
/// six transitions finish the program without ever entering the body,
/// whatever the body is.
pub proof fn lemma_while_false_condition(
    prog: Rc<Vec<Spanned>>,
    cond: Rc<Vec<Spanned>>,
    body: Rc<Vec<Spanned>>,
    st: StateModel,
)
    requires
        prog@.len() == 1,
        prog@[0].instruction == FalseInstruction::WhileLoop(cond, body),
        cond@.len() == 1,
        cond@[0].instruction == FalseInstruction::PushInt(0i32),
        st.status is Running,
    ensures
        ({
            let fin = machine_steps(
                6,
                MachineModel { frames: seq![Frame::Block(prog, 0usize)], state: st },
            );
            fin == (MachineModel {
                frames: Seq::<Frame>::empty(),
                state: StateModel { status: RunStatus::Done, ..st },
            })
        }),
{
    let span = prog@[0].span;
    let m0 = MachineModel { frames: seq![Frame::Block(prog, 0usize)], state: st };
    let m1 = machine_step(m0);
    assert(machine_steps(6, m0) == machine_steps(5, m1));
    assert(m1.frames =~= seq![
        Frame::Block(prog, 1usize),
        Frame::LoopCheck(cond, body, span),
        Frame::Block(cond, 0usize),
    ]);
    let m2 = machine_step(m1);
    assert(machine_steps(5, m1) == machine_steps(4, m2));
    assert(m2.frames =~= seq![
        Frame::Block(prog, 1usize),
        Frame::LoopCheck(cond, body, span),
        Frame::Block(cond, 1usize),
    ]);
    assert(m2.state =~= push_entry(st, int_entry(0i32)));
    let m3 = machine_step(m2);
    assert(machine_steps(4, m2) == machine_steps(3, m3));
    assert(m3.frames =~= seq![Frame::Block(prog, 1usize), Frame::LoopCheck(cond, body, span)]);
    let m4 = machine_step(m3);
    assert(machine_steps(3, m3) == machine_steps(2, m4));
    assert(m4.frames =~= seq![Frame::Block(prog, 1usize)]);
    assert(m4.state =~= st);
    let m5 = machine_step(m4);
    assert(machine_steps(2, m4) == machine_steps(1, m5));
    assert(m5.frames =~= Seq::<Frame>::empty());
    let m6 = machine_step(m5);
    assert(machine_steps(1, m5) == machine_steps(0, m6));
    assert(machine_steps(6, m0) =~= MachineModel {
        frames: Seq::<Frame>::empty(),
        state: StateModel { status: RunStatus::Done, ..st },
    });
}

} // verus!
