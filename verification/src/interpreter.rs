//! The executable evaluator.
//!
//! `Interpreter` is a builder carrying the two injected capabilities in
//! data form: the bytes the input capability will produce, and the buffer
//! the output capability appends to.  `start` turns a program into an
//! `Execution`, whose `step` performs exactly one transition of the
//! semantic machine (`semantics::machine_step`) and whose `run` performs a
//! bounded number of them.  The language itself has no iteration bound, so
//! a driver keeps calling `run` until `finished` reports a terminal
//! configuration.

use crate::ast::{char_from_u32, push_char, rc_clone, FalseInstruction, Span, Spanned};
use crate::semantics::{
    binary_step, char_code, dec_digits, digit_char, fail, init_machine, init_state, instr_effect,
    int_to_dec, is_binary, lemma_steps_snoc, lemma_terminal_stable, machine_step, machine_steps,
    pop_int_model, terminal, unary_step, FalseStackEntry, FalseStoreableValue, Frame, MachineModel,
    RunStatus, RuntimeErrorKind, StateModel,
};
use std::rc::Rc;
use vstd::prelude::*;
use vstd::string::StringExecFns;

verus! {

/// A runtime failure: the span of the instruction that raised it, its kind
/// from the closed taxonomy, and a human-readable reason.
#[derive(Debug)]
pub struct InterpreterRuntimeError {
    pub span: Span,
    pub kind: RuntimeErrorKind,
    pub reason: String,
}

impl InterpreterRuntimeError {
    pub fn new(span: Span, kind: RuntimeErrorKind, reason: String) -> (r: Self)
        ensures
            r.span == span,
            r.kind == kind,
            r.reason == reason,
    {
        InterpreterRuntimeError { span, kind, reason }
    }

    pub fn span(&self) -> (s: Span)
        ensures
            s == self.span,
    {
        self.span
    }

    pub fn kind(&self) -> (k: RuntimeErrorKind)
        ensures
            k == self.kind,
    {
        self.kind
    }

    pub fn reason(&self) -> (r: &str)
        ensures
            r@ == self.reason@,
    {
        self.reason.as_str()
    }
}

/// The status of an execution, carrying the full error when failed.
pub enum RunState {
    Running,
    Done,
    Failed(InterpreterRuntimeError),
}

/// The model of an execution status: the error is reduced to its span and
/// kind.
pub open spec fn status_model(s: RunState) -> RunStatus {
    match s {
        RunState::Running => RunStatus::Running,
        RunState::Done => RunStatus::Done,
        RunState::Failed(e) => RunStatus::Failed(e.span, e.kind),
    }
}

/// Copy a stored value; a lambda is shared, not deep-copied.
fn duplicate_value(v: &FalseStoreableValue) -> (r: FalseStoreableValue)
    ensures
        r == *v,
{
    match v {
        FalseStoreableValue::StoredInteger(i) => FalseStoreableValue::StoredInteger(*i),
        FalseStoreableValue::StoredLambda(b) => FalseStoreableValue::StoredLambda(rc_clone(b)),
    }
}

/// Copy a stack entry; a lambda is shared, not deep-copied.
fn duplicate_entry(e: &FalseStackEntry) -> (r: FalseStackEntry)
    ensures
        r == *e,
{
    match e {
        FalseStackEntry::VariableReference(c) => FalseStackEntry::VariableReference(*c),
        FalseStackEntry::StoredValue(v) => FalseStackEntry::StoredValue(duplicate_value(v)),
    }
}

/// The character of a single decimal digit.
fn digit_to_char(d: u8) -> (c: char)
    requires
        d < 10,
    ensures
        c == digit_char(d as nat),
{
    if d == 0 {
        '0'
    } else if d == 1 {
        '1'
    } else if d == 2 {
        '2'
    } else if d == 3 {
        '3'
    } else if d == 4 {
        '4'
    } else if d == 5 {
        '5'
    } else if d == 6 {
        '6'
    } else if d == 7 {
        '7'
    } else if d == 8 {
        '8'
    } else {
        '9'
    }
}

/// Append the decimal digits of `n` to `out`, most significant first.
fn push_dec(n: u32, out: &mut String)
    ensures
        final(out)@ == old(out)@ + dec_digits(n as nat),
    decreases n,
{
    if n >= 10 {
        push_dec(n / 10, out);
    }
    let c = digit_to_char((n % 10) as u8);
    push_char(out, c);
    proof {
        if n < 10 {
            assert(dec_digits(n as nat) == seq![digit_char(n as nat)]);
            assert(n % 10 == n as nat);
            assert(final(out)@ =~= old(out)@ + dec_digits(n as nat));
        } else {
            assert(final(out)@ =~= old(out)@ + dec_digits(n as nat));
        }
    }
}

/// The base-10 text of an integer.
pub fn int_to_text(v: i32) -> (s: String)
    ensures
        s@ == int_to_dec(v as int),
{
    let mut s = String::new();
    if v < 0 {
        push_char(&mut s, '-');
        let m: u32 = (-(v as i64)) as u32;
        push_dec(m, &mut s);
        proof {
            assert(s@ =~= seq!['-'] + dec_digits(m as nat));
        }
    } else {
        push_dec(v as u32, &mut s);
        proof {
            assert(s@ =~= dec_digits(v as nat));
        }
    }
    s
}

/// A program being executed: the control frames and the evaluation state
/// of the semantic machine, in executable form.
pub struct Execution {
    frames: Vec<Frame>,
    stack: Vec<FalseStackEntry>,
    scope: Vec<Option<FalseStoreableValue>>,
    input: Vec<u8>,
    cursor: usize,
    output: String,
    status: RunState,
}

impl View for Execution {
    type V = MachineModel;

    closed spec fn view(&self) -> MachineModel {
        MachineModel {
            frames: self.frames@,
            state: StateModel {
                stack: self.stack@,
                scope: self.scope@,
                input: self.input@,
                cursor: self.cursor as nat,
                output: self.output@,
                status: status_model(self.status),
            },
        }
    }
}

impl Execution {
    /// The scope vector always holds exactly one slot per variable letter.
    pub closed spec fn wf(&self) -> bool {
        self.scope@.len() == 26
    }

    /// Whether the machine has reached a terminal configuration.
    pub fn finished(&self) -> (b: bool)
        ensures
            b == terminal(self@),
    {
        match &self.status {
            RunState::Running => false,
            _ => true,
        }
    }

    /// The output collected so far.
    pub fn output(&self) -> (o: &String)
        ensures
            o@ == self@.state.output,
    {
        &self.output
    }

    /// The terminal result: `None` while the machine is still running,
    /// otherwise the collected output and either success or the runtime
    /// error that stopped the run.
    pub fn outcome(self) -> (r: Option<(String, Result<(), InterpreterRuntimeError>)>)
        ensures
            match self@.state.status {
                RunStatus::Running => r is None,
                RunStatus::Done => {
                    &&& r matches Some((out, res))
                    &&& out@ == self@.state.output
                    &&& res is Ok
                },
                RunStatus::Failed(sp, k) => {
                    &&& r matches Some((out, res))
                    &&& out@ == self@.state.output
                    &&& res matches Err(e) && e.span == sp && e.kind == k
                },
            },
    {
        match self.status {
            RunState::Running => None,
            RunState::Done => Some((self.output, Ok(()))),
            RunState::Failed(e) => Some((self.output, Err(e))),
        }
    }

    /// Stop the run at the given instruction with the given failure.
    fn fail_with(&mut self, span: Span, kind: RuntimeErrorKind, reason: String)
        requires
            old(self).wf(),
        ensures
            final(self).wf(),
            final(self)@.frames == old(self)@.frames,
            final(self)@.state == fail(old(self)@.state, span, kind),
    {
        self.status = RunState::Failed(InterpreterRuntimeError::new(span, kind, reason));
    }

    /// Pop the top entry, which must be a stored integer; otherwise stop
    /// the run as `pop_int_model` describes.
    fn pop_int(&mut self, span: Span) -> (r: Option<i32>)
        requires
            old(self).wf(),
            old(self)@.state.status is Running,
        ensures
            final(self).wf(),
            final(self)@.frames == old(self)@.frames,
            ({
                let (rm, stm) = pop_int_model(old(self)@.state, span);
                r == rm && final(self)@.state == stm
            }),
    {
        let n = self.stack.len();
        if n == 0 {
            self.fail_with(span, RuntimeErrorKind::StackUnderflow, "Stack is empty".to_owned());
            return None;
        }
        let found: Option<i32> = match &self.stack[n - 1] {
            FalseStackEntry::StoredValue(FalseStoreableValue::StoredInteger(i)) => Some(*i),
            _ => None,
        };
        match found {
            Some(v) => {
                let _ = self.stack.pop();
                Some(v)
            },
            None => {
                let tn = self.stack[n - 1].kind_name();
                let mut reason = "Expected Integer on stack, got ".to_owned();
                reason.append(tn);
                self.fail_with(span, RuntimeErrorKind::TypeMismatch, reason);
                None
            },
        }
    }

    /// Pop two integers and push the binary operator's result; the
    /// earlier-pushed operand is the left-hand side.
    fn binary_op(&mut self, instr: &FalseInstruction, span: Span)
        requires
            old(self).wf(),
            old(self)@.state.status is Running,
            is_binary(*instr),
        ensures
            final(self).wf(),
            final(self)@.frames == old(self)@.frames,
            final(self)@.state == binary_step(old(self)@.state, *instr, span),
    {
        let a = match self.pop_int(span) {
            Some(a) => a,
            None => {
                return ;
            },
        };
        let b = match self.pop_int(span) {
            Some(b) => b,
            None => {
                return ;
            },
        };
        let result: i32 = match instr {
            FalseInstruction::Add => b.wrapping_add(a),
            FalseInstruction::Sub => b.wrapping_sub(a),
            FalseInstruction::Mul => b.wrapping_mul(a),
            FalseInstruction::Div => {
                if a == 0 {
                    self.fail_with(
                        span,
                        RuntimeErrorKind::DivisionByZero,
                        "Division by zero".to_owned(),
                    );
                    return ;
                }
                match b.checked_div(a) {
                    Some(q) => q,
                    None => i32::MIN,
                }
            },
            FalseInstruction::BitAnd => b & a,
            FalseInstruction::BitOr => b | a,
            FalseInstruction::Gt => if b > a {
                -1
            } else {
                0
            },
            FalseInstruction::Eq => if b == a {
                -1
            } else {
                0
            },
            _ => {
                proof {
                    assert(false);
                }
                0
            },
        };
        self.stack.push(
            FalseStackEntry::StoredValue(FalseStoreableValue::StoredInteger(result)),
        );
    }

    /// Pop one integer and push the unary operator's result.
    fn unary_op(&mut self, instr: &FalseInstruction, span: Span)
        requires
            old(self).wf(),
            old(self)@.state.status is Running,
            *instr is Neg || *instr is BitNot,
        ensures
            final(self).wf(),
            final(self)@.frames == old(self)@.frames,
            final(self)@.state == unary_step(old(self)@.state, *instr, span),
    {
        let a = match self.pop_int(span) {
            Some(a) => a,
            None => {
                return ;
            },
        };
        let result: i32 = match instr {
            FalseInstruction::Neg => (0i32).wrapping_sub(a),
            FalseInstruction::BitNot => !a,
            _ => {
                proof {
                    assert(false);
                }
                0
            },
        };
        self.stack.push(
            FalseStackEntry::StoredValue(FalseStoreableValue::StoredInteger(result)),
        );
    }

    /// Apply one non-structural step of an instruction: the effect on the
    /// evaluation state, plus any frames the instruction pushes.
    #[verifier::spinoff_prover]
    #[verifier::rlimit(60)]
    fn apply_instruction(&mut self, instr: &FalseInstruction, span: Span)
        requires
            old(self).wf(),
            old(self)@.state.status is Running,
        ensures
            final(self).wf(),
            ({
                let (sfx, st2) = instr_effect(old(self)@.state, *instr, span);
                final(self)@.frames == old(self)@.frames + sfx && final(self)@.state == st2
            }),
    {
        proof {
            assert(old(self)@.frames + Seq::<Frame>::empty() =~= old(self)@.frames);
        }
        match instr {
            FalseInstruction::Name(c) => {
                self.stack.push(FalseStackEntry::VariableReference(*c));
            },
            FalseInstruction::PushInt(v) => {
                self.stack.push(
                    FalseStackEntry::StoredValue(FalseStoreableValue::StoredInteger(*v)),
                );
            },
            FalseInstruction::PushChar(b) => {
                self.stack.push(
                    FalseStackEntry::StoredValue(FalseStoreableValue::StoredInteger(*b as i32)),
                );
            },
            FalseInstruction::Dup => {
                let n = self.stack.len();
                if n == 0 {
                    self.fail_with(
                        span,
                        RuntimeErrorKind::StackUnderflow,
                        "Stack is empty".to_owned(),
                    );
                } else {
                    let e = duplicate_entry(&self.stack[n - 1]);
                    self.stack.push(e);
                }
            },
            FalseInstruction::Drop => {
                let n = self.stack.len();
                if n == 0 {
                    self.fail_with(
                        span,
                        RuntimeErrorKind::StackUnderflow,
                        "Stack is empty".to_owned(),
                    );
                } else {
                    let _ = self.stack.pop();
                }
            },
            FalseInstruction::Swap => {
                let n = self.stack.len();
                if n < 2 {
                    let reason = if n == 0 {
                        "Stack is empty"
                    } else {
                        "Stack only has 1 value"
                    };
                    self.fail_with(span, RuntimeErrorKind::StackUnderflow, reason.to_owned());
                } else {
                    let first = match self.stack.pop() {
                        Some(e) => e,
                        None => {
                            proof {
                                assert(false);
                            }
                            return ;
                        },
                    };
                    let second = match self.stack.pop() {
                        Some(e) => e,
                        None => {
                            proof {
                                assert(false);
                            }
                            return ;
                        },
                    };
                    self.stack.push(first);
                    self.stack.push(second);
                    proof {
                        let s0 = old(self)@.state.stack;
                        let k = s0.len() as int;
                        assert(self.stack@ =~= s0.update(k - 2, s0[k - 1]).update(k - 1, s0[k - 2]));
                    }
                }
            },
            FalseInstruction::Rot => {
                let n = self.stack.len();
                if n < 3 {
                    let reason = if n == 0 {
                        "Stack is empty"
                    } else if n == 1 {
                        "Stack only has 1 value"
                    } else {
                        "Stack only has 2 values"
                    };
                    self.fail_with(span, RuntimeErrorKind::StackUnderflow, reason.to_owned());
                } else {
                    let first = match self.stack.pop() {
                        Some(e) => e,
                        None => {
                            proof {
                                assert(false);
                            }
                            return ;
                        },
                    };
                    let second = match self.stack.pop() {
                        Some(e) => e,
                        None => {
                            proof {
                                assert(false);
                            }
                            return ;
                        },
                    };
                    let third = match self.stack.pop() {
                        Some(e) => e,
                        None => {
                            proof {
                                assert(false);
                            }
                            return ;
                        },
                    };
                    self.stack.push(second);
                    self.stack.push(first);
                    self.stack.push(third);
                    proof {
                        let s0 = old(self)@.state.stack;
                        let k = s0.len() as int;
                        assert(self.stack@ =~= s0.update(k - 3, s0[k - 2]).update(
                            k - 2,
                            s0[k - 1],
                        ).update(k - 1, s0[k - 3]));
                    }
                }
            },
            FalseInstruction::Pick => {
                let i = match self.pop_int(span) {
                    Some(i) => i,
                    None => {
                        return ;
                    },
                };
                if i < 0 || (i as usize) >= self.stack.len() {
                    let mut reason = "Index out of range for Pick: ".to_owned();
                    let t = int_to_text(i);
                    reason.append(t.as_str());
                    self.fail_with(span, RuntimeErrorKind::IndexOutOfRange, reason);
                } else {
                    let pos = self.stack.len() - 1 - (i as usize);
                    let e = duplicate_entry(&self.stack[pos]);
                    self.stack.push(e);
                }
            },
            FalseInstruction::Add => self.binary_op(instr, span),
            FalseInstruction::Sub => self.binary_op(instr, span),
            FalseInstruction::Mul => self.binary_op(instr, span),
            FalseInstruction::Div => self.binary_op(instr, span),
            FalseInstruction::BitAnd => self.binary_op(instr, span),
            FalseInstruction::BitOr => self.binary_op(instr, span),
            FalseInstruction::Gt => self.binary_op(instr, span),
            FalseInstruction::Eq => self.binary_op(instr, span),
            FalseInstruction::Neg => self.unary_op(instr, span),
            FalseInstruction::BitNot => self.unary_op(instr, span),
            FalseInstruction::Lambda(body) => {
                let b = rc_clone(body);
                self.stack.push(
                    FalseStackEntry::StoredValue(FalseStoreableValue::StoredLambda(b)),
                );
            },
            FalseInstruction::Execute => {
                let n = self.stack.len();
                if n == 0 {
                    self.fail_with(
                        span,
                        RuntimeErrorKind::StackUnderflow,
                        "Stack is empty".to_owned(),
                    );
                    return ;
                }
                let body: Option<Rc<Vec<Spanned>>> = match &self.stack[n - 1] {
                    FalseStackEntry::StoredValue(FalseStoreableValue::StoredLambda(b)) => Some(
                        rc_clone(b),
                    ),
                    _ => None,
                };
                match body {
                    Some(b) => {
                        let _ = self.stack.pop();
                        self.frames.push(Frame::Block(b, 0));
                        proof {
                            let (sfx, st2) = instr_effect(old(self)@.state, *instr, span);
                            assert(self.frames@ =~= old(self)@.frames + sfx);
                        }
                    },
                    None => {
                        let tn = self.stack[n - 1].kind_name();
                        let mut reason = "Expected lambda for Execute, got ".to_owned();
                        reason.append(tn);
                        self.fail_with(span, RuntimeErrorKind::TypeMismatch, reason);
                    },
                }
            },
            FalseInstruction::ConditionalExecute(body) => {
                let i = match self.pop_int(span) {
                    Some(i) => i,
                    None => {
                        return ;
                    },
                };
                if i != 0 {
                    let b = rc_clone(body);
                    self.frames.push(Frame::Block(b, 0));
                    proof {
                        let (sfx, st2) = instr_effect(old(self)@.state, *instr, span);
                        assert(self.frames@ =~= old(self)@.frames + sfx);
                    }
                }
            },
            FalseInstruction::WhileLoop(cond, body) => {
                self.frames.push(Frame::LoopCheck(rc_clone(cond), rc_clone(body), span));
                self.frames.push(Frame::Block(rc_clone(cond), 0));
                proof {
                    let (sfx, st2) = instr_effect(old(self)@.state, *instr, span);
                    assert(self.frames@ =~= old(self)@.frames + sfx);
                }
            },
            FalseInstruction::Store => {
                let n = self.stack.len();
                if n == 0 {
                    self.fail_with(
                        span,
                        RuntimeErrorKind::StackUnderflow,
                        "Stack is empty".to_owned(),
                    );
                    return ;
                }
                let name: Option<char> = match &self.stack[n - 1] {
                    FalseStackEntry::VariableReference(c) => Some(*c),
                    _ => None,
                };
                match name {
                    None => {
                        self.fail_with(
                            span,
                            RuntimeErrorKind::MisuseOfName,
                            "Store (:) must be preceded by a name".to_owned(),
                        );
                    },
                    Some(c) => {
                        let u = c as u32;
                        if u < 97 || u > 122 {
                            self.fail_with(
                                span,
                                RuntimeErrorKind::MisuseOfName,
                                "Store (:) requires a lowercase letter name".to_owned(),
                            );
                            return ;
                        }
                        let _ = self.stack.pop();
                        let n2 = self.stack.len();
                        if n2 == 0 {
                            self.fail_with(
                                span,
                                RuntimeErrorKind::StackUnderflow,
                                "Stack only has 1 value".to_owned(),
                            );
                            return ;
                        }
                        let storeable = matches!(
                            &self.stack[n2 - 1],
                            FalseStackEntry::StoredValue(_)
                        );
                        if !storeable {
                            self.fail_with(
                                span,
                                RuntimeErrorKind::MisuseOfName,
                                "Names cannot be stored in names".to_owned(),
                            );
                            return ;
                        }
                        match self.stack.pop() {
                            Some(FalseStackEntry::StoredValue(v)) => {
                                let idx = (u - 97) as usize;
                                self.scope[idx] = Some(v);
                            },
                            _ => {
                                proof {
                                    assert(false);
                                }
                            },
                        }
                    },
                }
            },
            FalseInstruction::Fetch => {
                let n = self.stack.len();
                if n == 0 {
                    self.fail_with(
                        span,
                        RuntimeErrorKind::StackUnderflow,
                        "Stack is empty".to_owned(),
                    );
                    return ;
                }
                let name: Option<char> = match &self.stack[n - 1] {
                    FalseStackEntry::VariableReference(c) => Some(*c),
                    _ => None,
                };
                match name {
                    None => {
                        self.fail_with(
                            span,
                            RuntimeErrorKind::MisuseOfName,
                            "Fetch (;) must be preceded by a name".to_owned(),
                        );
                    },
                    Some(c) => {
                        let u = c as u32;
                        if u < 97 || u > 122 {
                            self.fail_with(
                                span,
                                RuntimeErrorKind::MisuseOfName,
                                "Fetch (;) requires a lowercase letter name".to_owned(),
                            );
                            return ;
                        }
                        let _ = self.stack.pop();
                        let idx = (u - 97) as usize;
                        let found: Option<FalseStoreableValue> = match &self.scope[idx] {
                            Some(v) => Some(duplicate_value(v)),
                            None => None,
                        };
                        match found {
                            Some(v) => {
                                self.stack.push(FalseStackEntry::StoredValue(v));
                            },
                            None => {
                                let mut reason = "Name ".to_owned();
                                push_char(&mut reason, c);
                                reason.append(" not found in global scope");
                                self.fail_with(span, RuntimeErrorKind::UndefinedVariable, reason);
                            },
                        }
                    },
                }
            },
            FalseInstruction::ReadChar => {
                if self.cursor < self.input.len() {
                    let b = self.input[self.cursor];
                    self.stack.push(
                        FalseStackEntry::StoredValue(FalseStoreableValue::StoredInteger(b as i32)),
                    );
                    self.cursor = self.cursor + 1;
                } else {
                    self.stack.push(
                        FalseStackEntry::StoredValue(FalseStoreableValue::StoredInteger(-1)),
                    );
                }
            },
            FalseInstruction::WriteChar => {
                let v = match self.pop_int(span) {
                    Some(v) => v,
                    None => {
                        return ;
                    },
                };
                let code: u32 = if v >= 0 {
                    v as u32
                } else {
                    ((v as i64) + 0x1_0000_0000i64) as u32
                };
                proof {
                    assert(code == char_code(v));
                }
                match char_from_u32(code) {
                    Some(ch) => {
                        push_char(&mut self.output, ch);
                    },
                    None => {
                        let mut reason = "Can't output value ".to_owned();
                        let t = int_to_text(v);
                        reason.append(t.as_str());
                        reason.append(" as char");
                        self.fail_with(span, RuntimeErrorKind::InvalidCharacterCode, reason);
                    },
                }
            },
            FalseInstruction::WriteStr(s) => {
                self.output.append(s.as_str());
            },
            FalseInstruction::WriteInt => {
                let v = match self.pop_int(span) {
                    Some(v) => v,
                    None => {
                        return ;
                    },
                };
                let t = int_to_text(v);
                self.output.append(t.as_str());
            },
            FalseInstruction::Flush => {},
        }
    }

    /// Perform exactly one transition of the semantic machine.
    pub fn step(&mut self)
        requires
            old(self).wf(),
        ensures
            final(self).wf(),
            final(self)@ == machine_step(old(self)@),
    {
        match &self.status {
            RunState::Running => {},
            _ => {
                return ;
            },
        }
        if self.frames.len() == 0 {
            self.status = RunState::Done;
            return ;
        }
        let popped = self.frames.pop();
        match popped {
            None => {
                proof {
                    assert(false);
                }
            },
            Some(Frame::Block(body, idx)) => {
                if idx < body.len() {
                    self.frames.push(Frame::Block(rc_clone(&body), idx + 1));
                    let sp = &body[idx];
                    let span = sp.span;
                    self.apply_instruction(&sp.instruction, span);
                    proof {
                        let m0 = old(self)@;
                        let (sfx, st2) = frame_effect_of(m0);
                        assert(self.frames@ =~= m0.frames.drop_last() + sfx);
                        assert(self@ =~= machine_step(m0));
                    }
                } else {
                    proof {
                        let m0 = old(self)@;
                        let (sfx, st2) = frame_effect_of(m0);
                        assert(self.frames@ =~= m0.frames.drop_last() + sfx);
                        assert(self@ =~= machine_step(m0));
                    }
                }
            },
            Some(Frame::LoopCheck(cond, body, lspan)) => {
                match self.pop_int(lspan) {
                    None => {
                        proof {
                            let m0 = old(self)@;
                            let (sfx, st2) = frame_effect_of(m0);
                            assert(self.frames@ =~= m0.frames.drop_last() + sfx);
                            assert(self@ =~= machine_step(m0));
                        }
                    },
                    Some(i) => {
                        if i != 0 {
                            self.frames.push(
                                Frame::LoopCheck(rc_clone(&cond), rc_clone(&body), lspan),
                            );
                            self.frames.push(Frame::Block(cond, 0));
                            self.frames.push(Frame::Block(body, 0));
                        }
                        proof {
                            let m0 = old(self)@;
                            let (sfx, st2) = frame_effect_of(m0);
                            assert(self.frames@ =~= m0.frames.drop_last() + sfx);
                            assert(self@ =~= machine_step(m0));
                        }
                    },
                }
            },
        }
    }

    /// Perform at most `budget` transitions, stopping early at a terminal
    /// configuration.  Returns whether a terminal configuration was
    /// reached.
    pub fn run(&mut self, budget: u64) -> (done: bool)
        requires
            old(self).wf(),
        ensures
            final(self).wf(),
            exists|k: nat|
                k <= budget && final(self)@ == machine_steps(k, old(self)@) && (done <==> terminal(
                    final(self)@,
                )) && (!done ==> k == budget),
    {
        let ghost m0 = self@;
        let mut i: u64 = 0;
        let mut done = self.finished();
        while i < budget && !done
            invariant
                self.wf(),
                i <= budget,
                self@ == machine_steps(i as nat, m0),
                done == terminal(self@),
            decreases budget - i,
        {
            self.step();
            proof {
                lemma_steps_snoc(i as nat, m0);
            }
            i = i + 1;
            done = self.finished();
        }
        proof {
            assert(i <= budget && self@ == machine_steps(i as nat, m0) && (done <==> terminal(
                self@,
            )) && (!done ==> i == budget));
        }
        done
    }
}

/// The frame effect of the topmost frame of a configuration; a helper for
/// relating one executed transition to `machine_step`.
pub open spec fn frame_effect_of(m: MachineModel) -> (Seq<Frame>, StateModel) {
    crate::semantics::frame_effect(m.frames.last(), m.state)
}

/// The model of a builder: the input bytes it will hand the run, and the
/// initial contents of the output buffer.
pub struct InterpreterModel {
    pub input: Seq<u8>,
    pub output: Seq<char>,
}

/// A builder for a run: collects the optional input and output
/// capabilities in data form.  Without `on_input` the run sees an empty
/// input; without `on_output` the output is collected into a fresh buffer.
pub struct Interpreter {
    input: Vec<u8>,
    output: String,
}

impl View for Interpreter {
    type V = InterpreterModel;

    closed spec fn view(&self) -> InterpreterModel {
        InterpreterModel { input: self.input@, output: self.output@ }
    }
}

/// Whether a finished or unfinished outcome is the one the semantic
/// machine assigns to the given program, input, and output buffer within
/// the given number of transitions.
pub open spec fn run_outcome_matches(
    program: Rc<Vec<Spanned>>,
    input: Seq<u8>,
    out0: Seq<char>,
    budget: nat,
    r: Option<(String, Result<(), InterpreterRuntimeError>)>,
) -> bool {
    let fin = machine_steps(budget, init_machine(program, input, out0));
    match r {
        Some((out, res)) => terminal(fin) && out@ == fin.state.output && (match res {
            Ok(()) => fin.state.status is Done,
            Err(e) => fin.state.status == RunStatus::Failed(e.span, e.kind),
        }),
        None => !terminal(fin),
    }
}

impl Interpreter {
    pub fn new() -> (r: Interpreter)
        ensures
            r@.input == Seq::<u8>::empty(),
            r@.output == Seq::<char>::empty(),
    {
        Interpreter { input: Vec::new(), output: String::new() }
    }

    /// Supply the input capability: the bytes the run will read, in order.
    pub fn on_input(self, input: Vec<u8>) -> (r: Interpreter)
        ensures
            r@.input == input@,
            r@.output == self@.output,
    {
        Interpreter { input, output: self.output }
    }

    /// Supply the output capability: the buffer the run appends to.
    pub fn on_output(self, buffer: String) -> (r: Interpreter)
        ensures
            r@.input == self@.input,
            r@.output == buffer@,
    {
        Interpreter { input: self.input, output: buffer }
    }

    /// Begin executing a program: the initial machine configuration.
    pub fn start(self, ast: Vec<Spanned>) -> (r: Execution)
        ensures
            r.wf(),
            exists|p: Rc<Vec<Spanned>>|
                p@ == ast@ && r@ == #[trigger] init_machine(p, self@.input, self@.output),
    {
        let ghost gin = self@.input;
        let ghost gout = self@.output;
        let program = Rc::new(ast);
        let ghost gp = program;
        let mut scope: Vec<Option<FalseStoreableValue>> = Vec::new();
        let mut i: usize = 0;
        while i < 26
            invariant
                scope@.len() == i as nat,
                i <= 26,
                forall|k: int| 0 <= k < i ==> scope@[k] is None,
            decreases 26 - i,
        {
            scope.push(None);
            i = i + 1;
        }
        let mut frames: Vec<Frame> = Vec::new();
        frames.push(Frame::Block(program, 0));
        let r = Execution {
            frames,
            stack: Vec::new(),
            scope,
            input: self.input,
            cursor: 0,
            output: self.output,
            status: RunState::Running,
        };
        proof {
            assert(r@.frames =~= seq![Frame::Block(gp, 0usize)]);
            assert(r@.state.scope =~= Seq::new(26, |j: int| None::<FalseStoreableValue>));
            assert(r@.state =~= init_state(gin, gout));
            assert(r@ =~= init_machine(gp, gin, gout));
        }
        r
    }

    /// Parse nothing, run everything: execute a whole program under the
    /// built capabilities, within a budget of machine transitions.
    /// `None` means the budget was exhausted before the program finished;
    /// otherwise the collected output and the terminal result.
    pub fn run_program(self, ast: Vec<Spanned>, budget: u64) -> (r: Option<
        (String, Result<(), InterpreterRuntimeError>),
    >)
        ensures
            exists|p: Rc<Vec<Spanned>>|
                p@ == ast@ && #[trigger] run_outcome_matches(
                    p,
                    self@.input,
                    self@.output,
                    budget as nat,
                    r,
                ),
    {
        let ghost gin = self@.input;
        let ghost gout = self@.output;
        let ghost gast = ast@;
        let mut ex = self.start(ast);
        let ghost gp = choose|p: Rc<Vec<Spanned>>|
            p@ == gast && ex@ == #[trigger] init_machine(p, gin, gout);
        let ghost m0 = ex@;
        let done = ex.run(budget);
        proof {
            let k = choose|k: nat|
                k <= budget && ex@ == #[trigger] machine_steps(k, m0) && (done <==> terminal(ex@))
                    && (!done ==> k == budget);
            if done {
                lemma_terminal_stable(k, budget as nat, m0);
                assert(ex@ == machine_steps(budget as nat, m0));
            } else {
                assert(ex@ == machine_steps(budget as nat, m0));
            }
        }
        let r = ex.outcome();
        proof {
            assert(run_outcome_matches(gp, gin, gout, budget as nat, r));
        }
        r
    }
}

} // verus!
