//! The instruction model: a tree-shaped program representation.
//!
//! Every instruction carries the span of source text it was parsed from.
//! The three structural instructions own their child sequences through
//! reference-counted handles, so that pushing a block onto the operand
//! stack or re-entering a loop body never copies the instruction tree.

use std::rc::Rc;
use vstd::prelude::*;

verus! {

/// A half-open range of character indices into the source text,
/// attached to instructions and diagnostics.
#[derive(Clone, Copy, Debug, PartialEq, Eq, Structural)]
pub struct Span {
    pub start: usize,
    pub end: usize,
}

impl Span {
    pub fn new(start: usize, end: usize) -> (s: Span)
        ensures
            s == (Span { start, end }),
    {
        Span { start, end }
    }
}

/// One instruction of the source language.
///
/// Scalar payloads are an integer literal, a single output byte, a decoded
/// string literal, or a variable letter.  The three structural variants own
/// their child instruction sequences: a deferred block, a guarded block, and
/// a loop made of a condition block and a body block.
#[derive(Clone, Debug, PartialEq, Eq)]
pub enum FalseInstruction {
    Name(char),
    PushInt(i32),
    PushChar(u8),
    Dup,
    Drop,
    Swap,
    Rot,
    Pick,
    Add,
    Sub,
    Mul,
    Div,
    Neg,
    BitAnd,
    BitOr,
    BitNot,
    Gt,
    Eq,
    Lambda(Rc<Vec<Spanned>>),
    Execute,
    ConditionalExecute(Rc<Vec<Spanned>>),
    WhileLoop(Rc<Vec<Spanned>>, Rc<Vec<Spanned>>),
    Store,
    Fetch,
    ReadChar,
    WriteChar,
    WriteStr(String),
    WriteInt,
    Flush,
}

/// An instruction together with the span it was parsed from.
#[derive(Clone, Debug, PartialEq, Eq)]
pub struct Spanned {
    pub instruction: FalseInstruction,
    pub span: Span,
}

impl Spanned {
    pub fn new(instruction: FalseInstruction, span: Span) -> (s: Spanned)
        ensures
            s.instruction == instruction,
            s.span == span,
    {
        Spanned { instruction, span }
    }

    pub fn instruction(&self) -> (i: &FalseInstruction)
        ensures
            *i == self.instruction,
    {
        &self.instruction
    }

    pub fn span(&self) -> (s: Span)
        ensures
            s == self.span,
    {
        self.span
    }
}

/// Relies on `char::from_u32`: it returns `Some` exactly for Unicode
/// scalar values, and the character it returns has the given code point.
#[verifier::external_body]
pub(crate) fn char_from_u32(v: u32) -> (r: Option<char>)
    ensures
        r == if vstd::utf8::is_scalar(v) {
            Some(v as char)
        } else {
            None::<char>
        },
{
    char::from_u32(v)
}

/// Relies on `String::push`: it appends exactly the given character.
#[verifier::external_body]
pub(crate) fn push_char(s: &mut String, c: char)
    ensures
        final(s)@ == old(s)@.push(c),
{
    s.push(c)
}

/// Relies on `Rc::clone`: the returned handle is the same shared value as
/// the argument.
#[verifier::external_body]
pub(crate) fn rc_clone(v: &Rc<Vec<Spanned>>) -> (r: Rc<Vec<Spanned>>)
    ensures
        r == *v,
{
    Rc::clone(v)
}

} // verus!
