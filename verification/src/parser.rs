//! The grammar: source text to instruction tree, with error recovery.
//!
//! The grammar is stated as a deterministic scanning machine over the
//! character sequence (`scan_step`, iterated by `run_parse`): comments and
//! whitespace are transparent, literals and single-character operators
//! become instructions, `[` opens a nested block and `]` closes it, and a
//! closed block becomes a `Lambda`, a `ConditionalExecute` (immediately
//! followed by `?`), or — paired with the immediately preceding block — a
//! `WhileLoop` (immediately followed by `#`).  Diagnostics accumulate:
//! an unrecognized character, an unterminated comment or string, a bad
//! escape, or a block left open at end of input never abort the scan.
//!
//! The executable `parse` is verified to produce exactly the instruction
//! tree and diagnostics of `run_parse`, through the structural relation
//! `seq_matches` (the tree built with shared handles, matched against the
//! model built with mathematical sequences).

use crate::ast::{push_char, FalseInstruction, Span, Spanned};
use crate::semantics::is_letter;
use std::rc::Rc;
use vstd::prelude::*;
use vstd::string::StringExecFns;

verus! {

/// The kind of a parse diagnostic.
#[derive(Clone, Copy, Debug, PartialEq, Eq, Structural)]
pub enum ParseDiagKind {
    UnexpectedChar,
    UnterminatedComment,
    UnterminatedString,
    InvalidEscape,
    InvalidUnicode,
    IntOutOfRange,
    InvalidCharLiteral,
    UnterminatedCharLiteral,
    MissingClose,
}

/// A parse diagnostic: where, what kind, and a human-readable description.
#[derive(Debug)]
pub struct ParseDiag {
    pub span: Span,
    pub kind: ParseDiagKind,
    pub message: String,
}

/// The description of a diagnostic kind.
fn kind_message(kind: ParseDiagKind) -> &'static str {
    match kind {
        ParseDiagKind::UnexpectedChar => "found an unexpected character",
        ParseDiagKind::UnterminatedComment => "expected `}` to close the comment",
        ParseDiagKind::UnterminatedString => "expected `\"` to close the string",
        ParseDiagKind::InvalidEscape => "found an invalid escape sequence",
        ParseDiagKind::InvalidUnicode => "found an invalid unicode code point",
        ParseDiagKind::IntOutOfRange => "found an integer literal too large for 32 bits",
        ParseDiagKind::InvalidCharLiteral => "expected a single-byte character after `'`",
        ParseDiagKind::UnterminatedCharLiteral => "expected a character after `'`",
        ParseDiagKind::MissingClose => "expected `]` to close the block",
    }
}

fn mk_diag(span: Span, kind: ParseDiagKind) -> (d: ParseDiag)
    ensures
        d.span == span,
        d.kind == kind,
{
    ParseDiag { span, kind, message: kind_message(kind).to_owned() }
}

/// A diagnostic at the level of the model: its span and kind.
#[derive(Clone, Copy, Debug, PartialEq, Eq, Structural)]
pub struct DiagModel {
    pub span: Span,
    pub kind: ParseDiagKind,
}

/// Whether the produced diagnostics carry exactly the modelled spans and
/// kinds.
pub open spec fn diags_match(ds: Seq<ParseDiag>, ms: Seq<DiagModel>) -> bool {
    ds.len() == ms.len() && forall|k: int|
        0 <= k < ds.len() ==> (#[trigger] ds[k]).span == ms[k].span && ds[k].kind == ms[k].kind
}

/// The instruction tree at the level of the model: block payloads are
/// mathematical sequences, string payloads character sequences.
pub enum InstructionModel {
    Name(char),
    PushInt(i32),
    PushChar(u8),
    Dup,
    Drop,
    Swap,
    Rot,
    Pick,
    Add,
    Sub,
    Mul,
    Div,
    Neg,
    BitAnd,
    BitOr,
    BitNot,
    Gt,
    Eq,
    Lambda(Seq<SpannedModel>),
    Execute,
    ConditionalExecute(Seq<SpannedModel>),
    WhileLoop(Seq<SpannedModel>, Seq<SpannedModel>),
    Store,
    Fetch,
    ReadChar,
    WriteChar,
    WriteStr(Seq<char>),
    WriteInt,
    Flush,
}

/// An instruction model with its span.
pub struct SpannedModel {
    pub instruction: InstructionModel,
    pub span: Span,
}

/// Whether an instruction tree is exactly the one a model describes.
pub open spec fn instr_matches(i: FalseInstruction, m: InstructionModel) -> bool
    decreases m,
{
    match m {
        InstructionModel::Name(c) => i == FalseInstruction::Name(c),
        InstructionModel::PushInt(v) => i == FalseInstruction::PushInt(v),
        InstructionModel::PushChar(b) => i == FalseInstruction::PushChar(b),
        InstructionModel::Dup => i == FalseInstruction::Dup,
        InstructionModel::Drop => i == FalseInstruction::Drop,
        InstructionModel::Swap => i == FalseInstruction::Swap,
        InstructionModel::Rot => i == FalseInstruction::Rot,
        InstructionModel::Pick => i == FalseInstruction::Pick,
        InstructionModel::Add => i == FalseInstruction::Add,
        InstructionModel::Sub => i == FalseInstruction::Sub,
        InstructionModel::Mul => i == FalseInstruction::Mul,
        InstructionModel::Div => i == FalseInstruction::Div,
        InstructionModel::Neg => i == FalseInstruction::Neg,
        InstructionModel::BitAnd => i == FalseInstruction::BitAnd,
        InstructionModel::BitOr => i == FalseInstruction::BitOr,
        InstructionModel::BitNot => i == FalseInstruction::BitNot,
        InstructionModel::Gt => i == FalseInstruction::Gt,
        InstructionModel::Eq => i == FalseInstruction::Eq,
        InstructionModel::Lambda(bm) => (i matches FalseInstruction::Lambda(b) && seq_matches(
            b@,
            bm,
        )),
        InstructionModel::Execute => i == FalseInstruction::Execute,
        InstructionModel::ConditionalExecute(bm) => (i
            matches FalseInstruction::ConditionalExecute(b) && seq_matches(b@, bm)),
        InstructionModel::WhileLoop(cm, bm) => (i matches FalseInstruction::WhileLoop(c, b)
            && seq_matches(c@, cm) && seq_matches(b@, bm)),
        InstructionModel::Store => i == FalseInstruction::Store,
        InstructionModel::Fetch => i == FalseInstruction::Fetch,
        InstructionModel::ReadChar => i == FalseInstruction::ReadChar,
        InstructionModel::WriteChar => i == FalseInstruction::WriteChar,
        InstructionModel::WriteStr(t) => (i matches FalseInstruction::WriteStr(s) && s@ == t),
        InstructionModel::WriteInt => i == FalseInstruction::WriteInt,
        InstructionModel::Flush => i == FalseInstruction::Flush,
    }
}

pub open spec fn spanned_matches(s: Spanned, m: SpannedModel) -> bool
    decreases m,
{
    s.span == m.span && instr_matches(s.instruction, m.instruction)
}

/// Whether a produced instruction sequence is exactly the one the model
/// describes, element by element.
pub open spec fn seq_matches(s: Seq<Spanned>, ms: Seq<SpannedModel>) -> bool
    decreases ms,
{
    s.len() == ms.len() && forall|k: int|
        0 <= k < s.len() ==> spanned_matches(s[k], #[trigger] ms[k])
}

pub proof fn lemma_seq_matches_push(s: Seq<Spanned>, ms: Seq<SpannedModel>, x: Spanned, mx: SpannedModel)
    requires
        seq_matches(s, ms),
        spanned_matches(x, mx),
    ensures
        seq_matches(s.push(x), ms.push(mx)),
{
    assert forall|k: int| 0 <= k < s.push(x).len() implies spanned_matches(
        s.push(x)[k],
        #[trigger] ms.push(mx)[k],
    ) by {
        if k < s.len() {
            assert(spanned_matches(s[k], ms[k]));
        }
    }
}

pub proof fn lemma_diags_match_concat(
    a: Seq<ParseDiag>,
    am: Seq<DiagModel>,
    b: Seq<ParseDiag>,
    bm: Seq<DiagModel>,
)
    requires
        diags_match(a, am),
        diags_match(b, bm),
    ensures
        diags_match(a + b, am + bm),
{
    assert forall|k: int| 0 <= k < (a + b).len() implies ((#[trigger] (a + b)[k]).span == (am
        + bm)[k].span && (a + b)[k].kind == (am + bm)[k].kind) by {
        if k < a.len() {
            assert(a[k].span == am[k].span && a[k].kind == am[k].kind);
        } else {
            assert(b[k - a.len()].span == bm[k - a.len()].span && b[k - a.len()].kind == bm[k
                - a.len()].kind);
        }
    }
}

/// Character classes of the grammar, by code point.
pub open spec fn is_ws(c: char) -> bool {
    let u = c as u32;
    ||| u == 0x09
    ||| u == 0x0A
    ||| u == 0x0B
    ||| u == 0x0C
    ||| u == 0x0D
    ||| u == 0x20
    ||| u == 0x85
    ||| u == 0xA0
    ||| u == 0x1680
    ||| (0x2000 <= u && u <= 0x200A)
    ||| u == 0x2028
    ||| u == 0x2029
    ||| u == 0x202F
    ||| u == 0x205F
    ||| u == 0x3000
}

pub open spec fn is_digit_char(c: char) -> bool {
    48 <= (c as u32) && (c as u32) <= 57
}

pub open spec fn digit_of(c: char) -> int {
    (c as u32) - 48
}

pub open spec fn is_hex_char(c: char) -> bool {
    let u = c as u32;
    (48 <= u && u <= 57) || (97 <= u && u <= 102) || (65 <= u && u <= 70)
}

pub open spec fn hex_of(c: char) -> int {
    let u = c as u32;
    if 48 <= u && u <= 57 {
        u - 48
    } else if 97 <= u && u <= 102 {
        u - 87
    } else {
        u - 55
    }
}

/// The single-character operators and what they parse to.
pub open spec fn op_of(c: char) -> Option<InstructionModel> {
    if c == '$' {
        Some(InstructionModel::Dup)
    } else if c == '%' {
        Some(InstructionModel::Drop)
    } else if c == '\\' {
        Some(InstructionModel::Swap)
    } else if c == '@' {
        Some(InstructionModel::Rot)
    } else if c == '\u{f8}' {
        Some(InstructionModel::Pick)
    } else if c == '+' {
        Some(InstructionModel::Add)
    } else if c == '-' {
        Some(InstructionModel::Sub)
    } else if c == '*' {
        Some(InstructionModel::Mul)
    } else if c == '/' {
        Some(InstructionModel::Div)
    } else if c == '_' {
        Some(InstructionModel::Neg)
    } else if c == '&' {
        Some(InstructionModel::BitAnd)
    } else if c == '|' {
        Some(InstructionModel::BitOr)
    } else if c == '~' {
        Some(InstructionModel::BitNot)
    } else if c == '>' {
        Some(InstructionModel::Gt)
    } else if c == '=' {
        Some(InstructionModel::Eq)
    } else if c == '!' {
        Some(InstructionModel::Execute)
    } else if c == ':' {
        Some(InstructionModel::Store)
    } else if c == ';' {
        Some(InstructionModel::Fetch)
    } else if c == '^' {
        Some(InstructionModel::ReadChar)
    } else if c == ',' {
        Some(InstructionModel::WriteChar)
    } else if c == '.' {
        Some(InstructionModel::WriteInt)
    } else if c == '\u{df}' {
        Some(InstructionModel::Flush)
    } else {
        None
    }
}

/// Skip a comment body: the position after the closing `}`, and whether
/// one was found before end of input.
pub open spec fn skip_comment(s: Seq<char>, i: int) -> (int, bool)
    decreases s.len() - i,
{
    if i >= s.len() {
        (s.len() as int, false)
    } else if s[i] == '}' {
        (i + 1, true)
    } else {
        skip_comment(s, i + 1)
    }
}

pub proof fn lemma_skip_comment_bounds(s: Seq<char>, i: int)
    requires
        0 <= i <= s.len(),
    ensures
        i <= skip_comment(s, i).0 <= s.len(),
    decreases s.len() - i,
{
    if i < s.len() && s[i] != '}' {
        lemma_skip_comment_bounds(s, i + 1);
    }
}

/// The end of the run of decimal digits starting at `i`.
pub open spec fn scan_digits(s: Seq<char>, i: int) -> int
    decreases s.len() - i,
{
    if i >= s.len() || !is_digit_char(s[i]) {
        i
    } else {
        scan_digits(s, i + 1)
    }
}

pub proof fn lemma_scan_digits_bounds(s: Seq<char>, i: int)
    requires
        0 <= i <= s.len(),
    ensures
        i <= scan_digits(s, i) <= s.len(),
    decreases s.len() - i,
{
    if i < s.len() && is_digit_char(s[i]) {
        lemma_scan_digits_bounds(s, i + 1);
    }
}

/// The value of the digit run `s[i..j)`.
pub open spec fn digits_value(s: Seq<char>, i: int, j: int) -> int
    decreases j - i,
{
    if i >= j {
        0
    } else {
        digits_value(s, i, j - 1) * 10 + digit_of(s[j - 1])
    }
}

/// The result of scanning a string literal body: the decoded text, the
/// diagnostics, and the position after the closing quote (or the end of
/// input when unterminated).
pub struct StrScan {
    pub text: Seq<char>,
    pub diags: Seq<DiagModel>,
    pub end: int,
}

/// The code point of a `\uXXXX` escape whose four hex digits start at `i`.
pub open spec fn hex4_value(s: Seq<char>, i: int) -> u32 {
    (hex_of(s[i]) * 4096 + hex_of(s[i + 1]) * 256 + hex_of(s[i + 2]) * 16 + hex_of(
        s[i + 3],
    )) as u32
}

/// Scan a string literal body starting just after the opening quote:
/// plain characters accumulate; `\` introduces the eight named escapes and
/// `\uXXXX`; an invalid code point becomes the replacement character with
/// a diagnostic; a missing closing quote ends the scan at end of input
/// with a diagnostic.
pub open spec fn scan_string(s: Seq<char>, i: int) -> StrScan
    decreases s.len() - i,
{
    if i < 0 || i >= s.len() {
        StrScan {
            text: Seq::<char>::empty(),
            diags: seq![
                DiagModel {
                    span: Span { start: s.len() as usize, end: s.len() as usize },
                    kind: ParseDiagKind::UnterminatedString,
                },
            ],
            end: s.len() as int,
        }
    } else if s[i] == '"' {
        StrScan { text: Seq::<char>::empty(), diags: Seq::<DiagModel>::empty(), end: i + 1 }
    } else if s[i] == '\\' {
        if i + 1 >= s.len() {
            StrScan {
                text: Seq::<char>::empty(),
                diags: seq![
                    DiagModel {
                        span: Span { start: i as usize, end: s.len() as usize },
                        kind: ParseDiagKind::UnterminatedString,
                    },
                ],
                end: s.len() as int,
            }
        } else {
            let e = s[i + 1];
            if e == '\\' || e == '/' || e == '"' {
                let r = scan_string(s, i + 2);
                StrScan { text: seq![e] + r.text, ..r }
            } else if e == 'b' {
                let r = scan_string(s, i + 2);
                StrScan { text: seq!['\u{8}'] + r.text, ..r }
            } else if e == 'f' {
                let r = scan_string(s, i + 2);
                StrScan { text: seq!['\u{c}'] + r.text, ..r }
            } else if e == 'n' {
                let r = scan_string(s, i + 2);
                StrScan { text: seq!['\n'] + r.text, ..r }
            } else if e == 'r' {
                let r = scan_string(s, i + 2);
                StrScan { text: seq!['\r'] + r.text, ..r }
            } else if e == 't' {
                let r = scan_string(s, i + 2);
                StrScan { text: seq!['\t'] + r.text, ..r }
            } else if e == 'u' {
                if i + 6 <= s.len() && is_hex_char(s[i + 2]) && is_hex_char(s[i + 3])
                    && is_hex_char(s[i + 4]) && is_hex_char(s[i + 5]) {
                    let v = hex4_value(s, i + 2);
                    let r = scan_string(s, i + 6);
                    if vstd::utf8::is_scalar(v) {
                        StrScan { text: seq![v as char] + r.text, ..r }
                    } else {
                        StrScan {
                            text: seq!['\u{fffd}'] + r.text,
                            diags: seq![
                                DiagModel {
                                    span: Span { start: i as usize, end: (i + 6) as usize },
                                    kind: ParseDiagKind::InvalidUnicode,
                                },
                            ] + r.diags,
                            ..r
                        }
                    }
                } else {
                    let r = scan_string(s, i + 2);
                    StrScan {
                        diags: seq![
                            DiagModel {
                                span: Span { start: i as usize, end: (i + 2) as usize },
                                kind: ParseDiagKind::InvalidEscape,
                            },
                        ] + r.diags,
                        ..r
                    }
                }
            } else {
                let r = scan_string(s, i + 2);
                StrScan {
                    text: seq![e] + r.text,
                    diags: seq![
                        DiagModel {
                            span: Span { start: i as usize, end: (i + 2) as usize },
                            kind: ParseDiagKind::InvalidEscape,
                        },
                    ] + r.diags,
                    ..r
                }
            }
        }
    } else {
        let r = scan_string(s, i + 1);
        StrScan { text: seq![s[i]] + r.text, ..r }
    }
}

pub proof fn lemma_scan_string_bounds(s: Seq<char>, i: int)
    requires
        0 <= i <= s.len(),
    ensures
        i <= scan_string(s, i).end <= s.len(),
    decreases s.len() - i,
{
    if i < s.len() && s[i] != '"' {
        if s[i] == '\\' {
            if i + 1 < s.len() {
                let e = s[i + 1];
                if e == 'u' && i + 6 <= s.len() && is_hex_char(s[i + 2]) && is_hex_char(s[i + 3])
                    && is_hex_char(s[i + 4]) && is_hex_char(s[i + 5]) {
                    lemma_scan_string_bounds(s, i + 6);
                } else {
                    lemma_scan_string_bounds(s, i + 2);
                }
            }
        } else {
            lemma_scan_string_bounds(s, i + 1);
        }
    }
}

/// One block still being built: the items parsed so far, a block just
/// closed and possibly waiting to pair into a loop, and the position of
/// the opening bracket.
pub struct PendingModel {
    pub body: Seq<SpannedModel>,
    pub span: Span,
}

pub struct LevelModel {
    pub items: Seq<SpannedModel>,
    pub pending: Option<PendingModel>,
    pub start: int,
}

/// The whole scanning state: the position, the stack of open blocks (the
/// first entry is the top level), and the diagnostics so far.
pub struct ParseModel {
    pub pos: int,
    pub levels: Seq<LevelModel>,
    pub diags: Seq<DiagModel>,
}

pub open spec fn init_parse() -> ParseModel {
    ParseModel {
        pos: 0,
        levels: seq![
            LevelModel { items: Seq::<SpannedModel>::empty(), pending: None, start: 0 },
        ],
        diags: Seq::<DiagModel>::empty(),
    }
}

/// A level with its pending block resolved into a `Lambda`.
pub open spec fn resolve_pending(l: LevelModel) -> Seq<SpannedModel> {
    match l.pending {
        None => l.items,
        Some(p) => l.items.push(
            SpannedModel { instruction: InstructionModel::Lambda(p.body), span: p.span },
        ),
    }
}

/// The matching relation, assembled constructor by constructor: these
/// lemmas restate single cases of `instr_matches` for use at call sites.
proof fn lemma_spanned_matches(s: Spanned, m: SpannedModel)
    requires
        s.span == m.span,
        instr_matches(s.instruction, m.instruction),
    ensures
        spanned_matches(s, m),
{
}

proof fn lemma_name_matches(i: FalseInstruction, c: char)
    requires
        i == FalseInstruction::Name(c),
    ensures
        instr_matches(i, InstructionModel::Name(c)),
{
}

proof fn lemma_push_int_matches(i: FalseInstruction, v: i32)
    requires
        i == FalseInstruction::PushInt(v),
    ensures
        instr_matches(i, InstructionModel::PushInt(v)),
{
}

proof fn lemma_push_char_matches(i: FalseInstruction, b: u8)
    requires
        i == FalseInstruction::PushChar(b),
    ensures
        instr_matches(i, InstructionModel::PushChar(b)),
{
}

proof fn lemma_write_str_matches(i: FalseInstruction, tm: Seq<char>)
    requires
        (i matches FalseInstruction::WriteStr(t) && t@ == tm),
    ensures
        instr_matches(i, InstructionModel::WriteStr(tm)),
{
}

proof fn lemma_lambda_matches(i: FalseInstruction, b: Rc<Vec<Spanned>>, bm: Seq<SpannedModel>)
    requires
        i == FalseInstruction::Lambda(b),
        seq_matches(b@, bm),
    ensures
        instr_matches(i, InstructionModel::Lambda(bm)),
{
}

proof fn lemma_conditional_matches(i: FalseInstruction, b: Rc<Vec<Spanned>>, bm: Seq<SpannedModel>)
    requires
        i == FalseInstruction::ConditionalExecute(b),
        seq_matches(b@, bm),
    ensures
        instr_matches(i, InstructionModel::ConditionalExecute(bm)),
{
}

proof fn lemma_while_matches(
    i: FalseInstruction,
    c: Rc<Vec<Spanned>>,
    cm: Seq<SpannedModel>,
    b: Rc<Vec<Spanned>>,
    bm: Seq<SpannedModel>,
)
    requires
        i == FalseInstruction::WhileLoop(c, b),
        seq_matches(c@, cm),
        seq_matches(b@, bm),
    ensures
        instr_matches(i, InstructionModel::WhileLoop(cm, bm)),
{
}

/// Append one parsed instruction to the topmost level.
pub open spec fn emit(st: ParseModel, m: SpannedModel, newpos: int) -> ParseModel {
    let top = st.levels.last();
    ParseModel {
        pos: newpos,
        levels: st.levels.update(
            st.levels.len() - 1,
            LevelModel { items: top.items.push(m), ..top },
        ),
        ..st
    }
}

pub open spec fn add_diag(st: ParseModel, span: Span, kind: ParseDiagKind, newpos: int) -> ParseModel {
    ParseModel { pos: newpos, diags: st.diags.push(DiagModel { span, kind }), ..st }
}

/// Close the topmost block at the `]` at the current position: resolve the
/// enclosing level's pending pair into a `WhileLoop` when `#` follows
/// immediately, otherwise flush it as a `Lambda`; the closed block itself
/// becomes a `ConditionalExecute` when `?` follows immediately, stays
/// pending when `[` follows immediately, and becomes a `Lambda` otherwise.
pub open spec fn close_block(s: Seq<char>, st: ParseModel) -> ParseModel {
    let t = st.levels.last();
    let body = resolve_pending(t);
    let e = st.pos + 1;
    let blk_span = Span { start: t.start as usize, end: e as usize };
    let rest = st.levels.drop_last();
    let parent = rest.last();
    if e < s.len() && s[e] == '#' && parent.pending is Some {
        let p = parent.pending->Some_0;
        let item = SpannedModel {
            instruction: InstructionModel::WhileLoop(p.body, body),
            span: Span { start: p.span.start, end: (e + 1) as usize },
        };
        ParseModel {
            pos: e + 1,
            levels: rest.update(
                rest.len() - 1,
                LevelModel { items: parent.items.push(item), pending: None, ..parent },
            ),
            ..st
        }
    } else {
        let items1 = resolve_pending(parent);
        if e < s.len() && s[e] == '?' {
            let item = SpannedModel {
                instruction: InstructionModel::ConditionalExecute(body),
                span: Span { start: t.start as usize, end: (e + 1) as usize },
            };
            ParseModel {
                pos: e + 1,
                levels: rest.update(
                    rest.len() - 1,
                    LevelModel { items: items1.push(item), pending: None, ..parent },
                ),
                ..st
            }
        } else if e < s.len() && s[e] == '[' {
            ParseModel {
                pos: e,
                levels: rest.update(
                    rest.len() - 1,
                    LevelModel {
                        items: items1,
                        pending: Some(PendingModel { body, span: blk_span }),
                        ..parent
                    },
                ),
                ..st
            }
        } else {
            let item = SpannedModel { instruction: InstructionModel::Lambda(body), span: blk_span };
            ParseModel {
                pos: e,
                levels: rest.update(
                    rest.len() - 1,
                    LevelModel { items: items1.push(item), pending: None, ..parent },
                ),
                ..st
            }
        }
    }
}

/// One scanning step at a position inside the input.
pub open spec fn scan_step(s: Seq<char>, st: ParseModel) -> ParseModel {
    let c = s[st.pos];
    if is_ws(c) {
        ParseModel { pos: st.pos + 1, ..st }
    } else if c == '{' {
        let (j, found) = skip_comment(s, st.pos + 1);
        if found {
            ParseModel { pos: j, ..st }
        } else {
            add_diag(
                st,
                Span { start: st.pos as usize, end: s.len() as usize },
                ParseDiagKind::UnterminatedComment,
                j,
            )
        }
    } else if is_digit_char(c) {
        let j = scan_digits(s, st.pos);
        let v = digits_value(s, st.pos, j);
        if v > 0x7fff_ffff {
            add_diag(
                st,
                Span { start: st.pos as usize, end: j as usize },
                ParseDiagKind::IntOutOfRange,
                j,
            )
        } else {
            emit(
                st,
                SpannedModel {
                    instruction: InstructionModel::PushInt(v as i32),
                    span: Span { start: st.pos as usize, end: j as usize },
                },
                j,
            )
        }
    } else if c == '\'' {
        if st.pos + 1 < s.len() {
            let c2 = s[st.pos + 1];
            if (c2 as u32) < 128 {
                emit(
                    st,
                    SpannedModel {
                        instruction: InstructionModel::PushChar((c2 as u32) as u8),
                        span: Span { start: st.pos as usize, end: (st.pos + 2) as usize },
                    },
                    st.pos + 2,
                )
            } else {
                add_diag(
                    st,
                    Span { start: st.pos as usize, end: (st.pos + 2) as usize },
                    ParseDiagKind::InvalidCharLiteral,
                    st.pos + 2,
                )
            }
        } else {
            add_diag(
                st,
                Span { start: st.pos as usize, end: s.len() as usize },
                ParseDiagKind::UnterminatedCharLiteral,
                st.pos + 1,
            )
        }
    } else if c == '"' {
        let r = scan_string(s, st.pos + 1);
        let st1 = emit(
            st,
            SpannedModel {
                instruction: InstructionModel::WriteStr(r.text),
                span: Span { start: st.pos as usize, end: r.end as usize },
            },
            r.end,
        );
        ParseModel { diags: st1.diags + r.diags, ..st1 }
    } else if is_letter(c) {
        emit(
            st,
            SpannedModel {
                instruction: InstructionModel::Name(c),
                span: Span { start: st.pos as usize, end: (st.pos + 1) as usize },
            },
            st.pos + 1,
        )
    } else if op_of(c) is Some {
        emit(
            st,
            SpannedModel {
                instruction: op_of(c)->Some_0,
                span: Span { start: st.pos as usize, end: (st.pos + 1) as usize },
            },
            st.pos + 1,
        )
    } else if c == '[' {
        ParseModel {
            pos: st.pos + 1,
            levels: st.levels.push(
                LevelModel { items: Seq::<SpannedModel>::empty(), pending: None, start: st.pos },
            ),
            ..st
        }
    } else if c == ']' {
        if st.levels.len() >= 2 {
            close_block(s, st)
        } else {
            add_diag(
                st,
                Span { start: st.pos as usize, end: (st.pos + 1) as usize },
                ParseDiagKind::UnexpectedChar,
                st.pos + 1,
            )
        }
    } else {
        add_diag(
            st,
            Span { start: st.pos as usize, end: (st.pos + 1) as usize },
            ParseDiagKind::UnexpectedChar,
            st.pos + 1,
        )
    }
}

/// Close one block left open at end of input: one diagnostic, and the
/// block is treated as closed there.
pub open spec fn close_at_end(s: Seq<char>, st: ParseModel) -> ParseModel {
    let t = st.levels.last();
    let body = resolve_pending(t);
    let blk_span = Span { start: t.start as usize, end: s.len() as usize };
    let rest = st.levels.drop_last();
    let parent = rest.last();
    let items1 = resolve_pending(parent);
    let item = SpannedModel { instruction: InstructionModel::Lambda(body), span: blk_span };
    ParseModel {
        pos: st.pos,
        levels: rest.update(
            rest.len() - 1,
            LevelModel { items: items1.push(item), pending: None, ..parent },
        ),
        diags: st.diags.push(DiagModel { span: blk_span, kind: ParseDiagKind::MissingClose }),
    }
}

/// The remaining input, clamped for use as a termination measure.
pub open spec fn remaining(s: Seq<char>, st: ParseModel) -> int {
    if st.pos <= s.len() {
        s.len() - st.pos
    } else {
        0
    }
}

/// Run the scanner to completion: the parsed instruction sequence and the
/// diagnostics.  Parsing never aborts; every input yields both.
pub open spec fn run_parse(s: Seq<char>, st: ParseModel) -> (Seq<SpannedModel>, Seq<DiagModel>)
    decreases remaining(s, st), st.levels.len(),
    via run_parse_decreases
{
    if st.levels.len() == 0 {
        (Seq::<SpannedModel>::empty(), st.diags)
    } else if 0 <= st.pos < s.len() {
        run_parse(s, scan_step(s, st))
    } else if st.levels.len() >= 2 {
        run_parse(s, close_at_end(s, st))
    } else {
        (resolve_pending(st.levels.last()), st.diags)
    }
}

/// Every scanning step consumes at least one character and stays inside
/// the input.
pub proof fn lemma_scan_step_progress(s: Seq<char>, st: ParseModel)
    requires
        st.levels.len() >= 1,
        0 <= st.pos < s.len(),
    ensures
        st.pos < scan_step(s, st).pos <= s.len(),
        scan_step(s, st).levels.len() >= 1,
{
    let c = s[st.pos];
    if c == '{' {
        lemma_skip_comment_bounds(s, st.pos + 1);
    } else if is_digit_char(c) {
        lemma_scan_digits_bounds(s, st.pos + 1);
        assert(scan_digits(s, st.pos) == scan_digits(s, st.pos + 1));
    } else if c == '"' {
        lemma_scan_string_bounds(s, st.pos + 1);
    }
}

#[via_fn]
proof fn run_parse_decreases(s: Seq<char>, st: ParseModel) {
    if st.levels.len() == 0 {
    } else if 0 <= st.pos < s.len() {
        lemma_scan_step_progress(s, st);
    }
}

/// One block still being built, in executable form.
struct Level {
    items: Vec<Spanned>,
    pending: Option<(Vec<Spanned>, Span)>,
    start: usize,
}

spec fn pending_matches(p: Option<(Vec<Spanned>, Span)>, m: Option<PendingModel>) -> bool {
    match (p, m) {
        (None, None) => true,
        (Some(pv), Some(pm)) => seq_matches(pv.0@, pm.body) && pv.1 == pm.span,
        _ => false,
    }
}

spec fn level_matches(l: Level, m: LevelModel) -> bool {
    seq_matches(l.items@, m.items) && pending_matches(l.pending, m.pending) && l.start == m.start
}

spec fn levels_match(ls: Seq<Level>, ms: Seq<LevelModel>) -> bool {
    ls.len() == ms.len() && forall|k: int|
        0 <= k < ls.len() ==> level_matches(ls[k], #[trigger] ms[k])
}

proof fn lemma_levels_match_push(ls: Seq<Level>, ms: Seq<LevelModel>, l: Level, m: LevelModel)
    requires
        levels_match(ls, ms),
        level_matches(l, m),
    ensures
        levels_match(ls.push(l), ms.push(m)),
{
    assert forall|k: int| 0 <= k < ls.push(l).len() implies level_matches(
        ls.push(l)[k],
        #[trigger] ms.push(m)[k],
    ) by {
        if k < ls.len() {
            assert(level_matches(ls[k], ms[k]));
        }
    }
}

proof fn lemma_levels_match_set_last(ls: Seq<Level>, ms: Seq<LevelModel>, l: Level, m: LevelModel)
    requires
        levels_match(ls, ms),
        ls.len() >= 1,
        level_matches(l, m),
    ensures
        levels_match(ls.drop_last().push(l), ms.update(ms.len() - 1, m)),
{
    assert forall|k: int| 0 <= k < ls.drop_last().push(l).len() implies level_matches(
        ls.drop_last().push(l)[k],
        #[trigger] ms.update(ms.len() - 1, m)[k],
    ) by {
        if k < ls.len() - 1 {
            assert(level_matches(ls[k], ms[k]));
        }
    }
}

proof fn lemma_levels_match_drop_last(ls: Seq<Level>, ms: Seq<LevelModel>)
    requires
        levels_match(ls, ms),
        ls.len() >= 1,
    ensures
        levels_match(ls.drop_last(), ms.drop_last()),
{
    assert forall|k: int| 0 <= k < ls.drop_last().len() implies level_matches(
        ls.drop_last()[k],
        #[trigger] ms.drop_last()[k],
    ) by {
        assert(level_matches(ls[k], ms[k]));
    }
}

/// Pop the innermost open block.
fn pop_last_level(levels: &mut Vec<Level>) -> (l: Level)
    requires
        old(levels)@.len() >= 1,
    ensures
        l == old(levels)@.last(),
        final(levels)@ == old(levels)@.drop_last(),
{
    match levels.pop() {
        Some(l) => l,
        None => {
            proof {
                assert(false);
            }
            vstd::pervasive::unreached()
        },
    }
}

/// The characters of the source text, by index.
fn to_char_vec(input: &str) -> (v: Vec<char>)
    ensures
        v@ == input@,
{
    let n = input.unicode_len();
    let mut v: Vec<char> = Vec::new();
    let mut i: usize = 0;
    while i < n
        invariant
            i <= n,
            n == input@.len(),
            v@ =~= input@.subrange(0, i as int),
        decreases n - i,
    {
        v.push(input.get_char(i));
        proof {
            assert(v@ =~= input@.subrange(0, i + 1));
        }
        i = i + 1;
    }
    proof {
        assert(v@ =~= input@);
    }
    v
}

/// A new vector with one diagnostic in front of the given ones.
fn prepend_diag(d: ParseDiag, v: Vec<ParseDiag>) -> (r: Vec<ParseDiag>)
    ensures
        r@ == seq![d] + v@,
{
    let mut r: Vec<ParseDiag> = Vec::new();
    r.push(d);
    let mut v = v;
    r.append(&mut v);
    proof {
        assert(r@ =~= seq![d] + r@.subrange(1, r@.len() as int));
    }
    r
}

fn is_ws_x(c: char) -> (b: bool)
    ensures
        b == is_ws(c),
{
    let u = c as u32;
    u == 0x09 || u == 0x0A || u == 0x0B || u == 0x0C || u == 0x0D || u == 0x20 || u == 0x85 || u
        == 0xA0 || u == 0x1680 || (0x2000 <= u && u <= 0x200A) || u == 0x2028 || u == 0x2029 || u
        == 0x202F || u == 0x205F || u == 0x3000
}

/// The single-letter variable recognizer: the letter itself for `a`
/// through `z`, nothing otherwise.
pub fn false_name(c: char) -> (r: Option<char>)
    ensures
        r == if is_letter(c) {
            Some(c)
        } else {
            None::<char>
        },
{
    let u = c as u32;
    if 97 <= u && u <= 122 {
        Some(c)
    } else {
        None
    }
}

fn op_of_x(c: char) -> (r: Option<FalseInstruction>)
    ensures
        match r {
            Some(i) => op_of(c) is Some && instr_matches(i, op_of(c)->Some_0),
            None => op_of(c) is None,
        },
{
    if c == '$' {
        Some(FalseInstruction::Dup)
    } else if c == '%' {
        Some(FalseInstruction::Drop)
    } else if c == '\\' {
        Some(FalseInstruction::Swap)
    } else if c == '@' {
        Some(FalseInstruction::Rot)
    } else if c == '\u{f8}' {
        Some(FalseInstruction::Pick)
    } else if c == '+' {
        Some(FalseInstruction::Add)
    } else if c == '-' {
        Some(FalseInstruction::Sub)
    } else if c == '*' {
        Some(FalseInstruction::Mul)
    } else if c == '/' {
        Some(FalseInstruction::Div)
    } else if c == '_' {
        Some(FalseInstruction::Neg)
    } else if c == '&' {
        Some(FalseInstruction::BitAnd)
    } else if c == '|' {
        Some(FalseInstruction::BitOr)
    } else if c == '~' {
        Some(FalseInstruction::BitNot)
    } else if c == '>' {
        Some(FalseInstruction::Gt)
    } else if c == '=' {
        Some(FalseInstruction::Eq)
    } else if c == '!' {
        Some(FalseInstruction::Execute)
    } else if c == ':' {
        Some(FalseInstruction::Store)
    } else if c == ';' {
        Some(FalseInstruction::Fetch)
    } else if c == '^' {
        Some(FalseInstruction::ReadChar)
    } else if c == ',' {
        Some(FalseInstruction::WriteChar)
    } else if c == '.' {
        Some(FalseInstruction::WriteInt)
    } else if c == '\u{df}' {
        Some(FalseInstruction::Flush)
    } else {
        None
    }
}

fn skip_comment_x(chars: &Vec<char>, i: usize) -> (r: (usize, bool))
    requires
        i <= chars@.len(),
    ensures
        (r.0 as int, r.1) == skip_comment(chars@, i as int),
        i <= r.0 <= chars@.len(),
    decreases chars@.len() - i,
{
    if i >= chars.len() {
        (chars.len(), false)
    } else if chars[i] == '}' {
        (i + 1, true)
    } else {
        skip_comment_x(chars, i + 1)
    }
}

fn digit_at(chars: &Vec<char>, j: usize) -> (b: bool)
    ensures
        b == (j < chars@.len() && is_digit_char(chars@[j as int])),
{
    if j >= chars.len() {
        false
    } else {
        let u = chars[j] as u32;
        48 <= u && u <= 57
    }
}

/// Scan a run of digits: its end and its value, the value capped above
/// the 32-bit range.
fn scan_int_x(chars: &Vec<char>, start: usize) -> (r: (u64, usize))
    requires
        start < chars@.len(),
        is_digit_char(chars@[start as int]),
    ensures
        ({
            let j = scan_digits(chars@, start as int);
            let v = digits_value(chars@, start as int, j);
            &&& r.1 as int == j
            &&& (v > 0x7fff_ffff <==> r.0 > 0x7fff_ffff)
            &&& (v <= 0x7fff_ffff ==> r.0 == v)
        }),
{
    let ghost s = chars@;
    let n = chars.len();
    let mut j = start;
    let mut acc: u64 = 0;
    let mut go = digit_at(chars, j);
    while go
        invariant
            start <= j <= n,
            n == s.len(),
            s == chars@,
            go == (j < s.len() && is_digit_char(s[j as int])),
            scan_digits(s, start as int) == scan_digits(s, j as int),
            acc <= 0x7fff_ffff * 10 + 9,
            digits_value(s, start as int, j as int) >= 0,
            digits_value(s, start as int, j as int) > 0x7fff_ffff <==> acc > 0x7fff_ffff,
            digits_value(s, start as int, j as int) <= 0x7fff_ffff ==> acc == digits_value(
                s,
                start as int,
                j as int,
            ),
        decreases s.len() - j,
    {
        let d = (chars[j] as u32 - 48) as u64;
        proof {
            assert(digits_value(s, start as int, j + 1) == digits_value(s, start as int, j as int)
                * 10 + digit_of(s[j as int]));
        }
        if acc <= 0x7fff_ffff {
            acc = acc * 10 + d;
        }
        j = j + 1;
        go = digit_at(chars, j);
    }
    (acc, j)
}

fn hex_digit(chars: &Vec<char>, k: usize) -> (r: Option<u32>)
    requires
        k < chars@.len(),
    ensures
        r is Some <==> is_hex_char(chars@[k as int]),
        r is Some ==> r->Some_0 == hex_of(chars@[k as int]),
{
    let u = chars[k] as u32;
    if 48 <= u && u <= 57 {
        Some(u - 48)
    } else if 97 <= u && u <= 102 {
        Some(u - 87)
    } else if 65 <= u && u <= 70 {
        Some(u - 55)
    } else {
        None
    }
}

/// Scan a string literal body, decoding escapes: the text, the
/// diagnostics, and the position after the closing quote.
fn scan_string_x(chars: &Vec<char>, i: usize) -> (r: (String, Vec<ParseDiag>, usize))
    requires
        i <= chars@.len(),
    ensures
        ({
            let sc = scan_string(chars@, i as int);
            &&& r.0@ == sc.text
            &&& diags_match(r.1@, sc.diags)
            &&& r.2 as int == sc.end
            &&& i <= r.2 <= chars@.len()
        }),
    decreases chars@.len() - i,
{
    if i >= chars.len() {
        let n = chars.len();
        let d = mk_diag(Span::new(n, n), ParseDiagKind::UnterminatedString);
        let mut dv: Vec<ParseDiag> = Vec::new();
        dv.push(d);
        (String::new(), dv, n)
    } else {
        let c = chars[i];
        if c == '"' {
            (String::new(), Vec::new(), i + 1)
        } else if c == '\\' {
            if i + 1 >= chars.len() {
                let n = chars.len();
                let d = mk_diag(Span::new(i, n), ParseDiagKind::UnterminatedString);
                let mut dv: Vec<ParseDiag> = Vec::new();
                dv.push(d);
                (String::new(), dv, n)
            } else {
                let e = chars[i + 1];
                if e == '\\' || e == '/' || e == '"' {
                    let (t, dv, en) = scan_string_x(chars, i + 2);
                    let mut s0 = String::new();
                    push_char(&mut s0, e);
                    s0.append(t.as_str());
                    proof {
                        assert(s0@ =~= seq![e] + t@);
                    }
                    (s0, dv, en)
                } else if e == 'b' || e == 'f' || e == 'n' || e == 'r' || e == 't' {
                    let decoded: char = if e == 'b' {
                        '\u{8}'
                    } else if e == 'f' {
                        '\u{c}'
                    } else if e == 'n' {
                        '\n'
                    } else if e == 'r' {
                        '\r'
                    } else {
                        '\t'
                    };
                    let (t, dv, en) = scan_string_x(chars, i + 2);
                    let mut s0 = String::new();
                    push_char(&mut s0, decoded);
                    s0.append(t.as_str());
                    proof {
                        assert(s0@ =~= seq![decoded] + t@);
                    }
                    (s0, dv, en)
                } else if e == 'u' {
                    let room = chars.len() - i >= 6;
                    let h0 = if room {
                        hex_digit(chars, i + 2)
                    } else {
                        None
                    };
                    let h1 = if room {
                        hex_digit(chars, i + 3)
                    } else {
                        None
                    };
                    let h2 = if room {
                        hex_digit(chars, i + 4)
                    } else {
                        None
                    };
                    let h3 = if room {
                        hex_digit(chars, i + 5)
                    } else {
                        None
                    };
                    match (h0, h1, h2, h3) {
                        (Some(a), Some(b), Some(cc), Some(dd)) => {
                            let hv: u32 = a * 4096 + b * 256 + cc * 16 + dd;
                            proof {
                                assert(hv == hex4_value(chars@, i + 2));
                            }
                            let (t, dv, en) = scan_string_x(chars, i + 6);
                            match crate::ast::char_from_u32(hv) {
                                Some(ch) => {
                                    let mut s0 = String::new();
                                    push_char(&mut s0, ch);
                                    s0.append(t.as_str());
                                    proof {
                                        assert(s0@ =~= seq![ch] + t@);
                                    }
                                    (s0, dv, en)
                                },
                                None => {
                                    let mut s0 = String::new();
                                    push_char(&mut s0, '\u{fffd}');
                                    s0.append(t.as_str());
                                    let d = mk_diag(
                                        Span::new(i, i + 6),
                                        ParseDiagKind::InvalidUnicode,
                                    );
                                    let dv2 = prepend_diag(d, dv);
                                    proof {
                                        assert(s0@ =~= seq!['\u{fffd}'] + t@);
                                        let sc = scan_string(chars@, i as int);
                                        assert(diags_match(dv2@, sc.diags));
                                    }
                                    (s0, dv2, en)
                                },
                            }
                        },
                        _ => {
                            let (t, dv, en) = scan_string_x(chars, i + 2);
                            let d = mk_diag(Span::new(i, i + 2), ParseDiagKind::InvalidEscape);
                            let dv2 = prepend_diag(d, dv);
                            proof {
                                let sc = scan_string(chars@, i as int);
                                assert(diags_match(dv2@, sc.diags));
                            }
                            (t, dv2, en)
                        },
                    }
                } else {
                    let (t, dv, en) = scan_string_x(chars, i + 2);
                    let mut s0 = String::new();
                    push_char(&mut s0, e);
                    s0.append(t.as_str());
                    let d = mk_diag(Span::new(i, i + 2), ParseDiagKind::InvalidEscape);
                    let dv2 = prepend_diag(d, dv);
                    proof {
                        assert(s0@ =~= seq![e] + t@);
                        let sc = scan_string(chars@, i as int);
                        assert(diags_match(dv2@, sc.diags));
                    }
                    (s0, dv2, en)
                }
            }
        } else {
            let (t, dv, en) = scan_string_x(chars, i + 1);
            let mut s0 = String::new();
            push_char(&mut s0, c);
            s0.append(t.as_str());
            proof {
                assert(s0@ =~= seq![c] + t@);
            }
            (s0, dv, en)
        }
    }
}

/// Parse an entire string literal standing alone: the decoded text when
/// the input is exactly one well-formed quoted string, nothing otherwise.
pub fn escaped_string(input: &str) -> (r: Option<String>)
    ensures
        ({
            let s = input@;
            if s.len() >= 1 && s[0] == '"' && scan_string(s, 1).end == s.len() && scan_string(
                s,
                1,
            ).diags.len() == 0 {
                r matches Some(t) && t@ == scan_string(s, 1).text
            } else {
                r is None
            }
        }),
{
    let chars = to_char_vec(input);
    if chars.len() == 0 {
        return None;
    }
    if chars[0] != '"' {
        return None;
    }
    let (t, dv, en) = scan_string_x(&chars, 1);
    if en == chars.len() && dv.len() == 0 {
        Some(t)
    } else {
        None
    }
}

/// Append one parsed instruction to the innermost open block: the step
/// relation for every emitting arm of the scanner.
proof fn lemma_emit_step(
    ls: Seq<Level>,
    ms: Seq<LevelModel>,
    item: Spanned,
    m: SpannedModel,
    top2: Level,
)
    requires
        levels_match(ls, ms),
        ls.len() >= 1,
        spanned_matches(item, m),
        top2.items@ == ls.last().items@.push(item),
        top2.pending == ls.last().pending,
        top2.start == ls.last().start,
    ensures
        levels_match(
            ls.drop_last().push(top2),
            ms.update(ms.len() - 1, LevelModel { items: ms.last().items.push(m), ..ms.last() }),
        ),
{
    assert(level_matches(ls[ls.len() - 1], ms[ls.len() - 1]));
    lemma_seq_matches_push(ls.last().items@, ms.last().items, item, m);
    lemma_levels_match_set_last(
        ls,
        ms,
        top2,
        LevelModel { items: ms.last().items.push(m), ..ms.last() },
    );
}

/// Parse source text: the instruction sequence and the parse diagnostics.
/// Parsing never aborts on an error; it reports as many independent
/// problems as it can and still returns the (possibly partial) tree, which
/// is exactly the one the grammar (`run_parse`) describes.
#[verifier::spinoff_prover]
#[verifier::rlimit(100)]
pub fn parse(input: &str) -> (r: (Vec<Spanned>, Vec<ParseDiag>))
    ensures
        ({
            let (ms, ds) = run_parse(input@, init_parse());
            seq_matches(r.0@, ms) && diags_match(r.1@, ds)
        }),
{
    let chars = to_char_vec(input);
    let ghost s = input@;
    let mut levels: Vec<Level> = Vec::new();
    levels.push(Level { items: Vec::new(), pending: None, start: 0 });
    let mut diags: Vec<ParseDiag> = Vec::new();
    let mut pos: usize = 0;
    let ghost mut gm: ParseModel = init_parse();
    proof {
        assert(levels_match(levels@, gm.levels));
    }
    while pos < chars.len() || levels.len() > 1
        invariant
            s == chars@,
            pos <= chars.len(),
            levels@.len() >= 1,
            gm.pos == pos as int,
            gm.levels.len() == levels@.len(),
            levels_match(levels@, gm.levels),
            diags_match(diags@, gm.diags),
            run_parse(s, gm) == run_parse(s, init_parse()),
        decreases chars.len() - pos, levels.len(),
    {
        let ghost gm0 = gm;
        let ghost ls0 = levels@;
        if pos < chars.len() {
            proof {
                lemma_scan_step_progress(s, gm0);
                assert(run_parse(s, gm0) == run_parse(s, scan_step(s, gm0)));
                gm = scan_step(s, gm0);
            }
            let c = chars[pos];
            if is_ws_x(c) {
                pos = pos + 1;
            } else if c == '{' {
                let (j, found) = skip_comment_x(&chars, pos + 1);
                if !found {
                    let d = mk_diag(
                        Span::new(pos, chars.len()),
                        ParseDiagKind::UnterminatedComment,
                    );
                    diags.push(d);
                }
                pos = j;
            } else if digit_at(&chars, pos) {
                let (val, j) = scan_int_x(&chars, pos);
                if val > 0x7fff_ffff {
                    let d = mk_diag(Span::new(pos, j), ParseDiagKind::IntOutOfRange);
                    diags.push(d);
                } else {
                    let item = Spanned::new(
                        FalseInstruction::PushInt(val as i32),
                        Span::new(pos, j),
                    );
                    let mut top = pop_last_level(&mut levels);
                    top.items.push(item);
                    let ghost top2 = top;
                    levels.push(top);
                    proof {
                        let v = digits_value(s, pos as int, scan_digits(s, pos as int));
                        let m = SpannedModel {
                            instruction: InstructionModel::PushInt(v as i32),
                            span: Span { start: pos, end: j },
                        };
                        assert(val == v);
                        lemma_push_int_matches(item.instruction, v as i32);
                        lemma_spanned_matches(item, m);
                        lemma_emit_step(ls0, gm0.levels, item, m, top2);
                    }
                }
                pos = j;
            } else if c == '\'' {
                if pos + 1 < chars.len() {
                    let c2 = chars[pos + 1];
                    let u2 = c2 as u32;
                    if u2 < 128 {
                        let item = Spanned::new(
                            FalseInstruction::PushChar(u2 as u8),
                            Span::new(pos, pos + 2),
                        );
                        let mut top = pop_last_level(&mut levels);
                        top.items.push(item);
                        let ghost top2 = top;
                        levels.push(top);
                        proof {
                            let m = SpannedModel {
                                instruction: InstructionModel::PushChar((c2 as u32) as u8),
                                span: Span { start: pos, end: (pos + 2) as usize },
                            };
                            lemma_push_char_matches(item.instruction, (c2 as u32) as u8);
                            lemma_spanned_matches(item, m);
                            lemma_emit_step(ls0, gm0.levels, item, m, top2);
                        }
                    } else {
                        let d = mk_diag(
                            Span::new(pos, pos + 2),
                            ParseDiagKind::InvalidCharLiteral,
                        );
                        diags.push(d);
                    }
                    pos = pos + 2;
                } else {
                    let d = mk_diag(
                        Span::new(pos, chars.len()),
                        ParseDiagKind::UnterminatedCharLiteral,
                    );
                    diags.push(d);
                    pos = pos + 1;
                }
            } else if c == '"' {
                let (text, sdiags, send) = scan_string_x(&chars, pos + 1);
                let ghost sd0 = sdiags@;
                let item = Spanned::new(FalseInstruction::WriteStr(text), Span::new(pos, send));
                let mut top = pop_last_level(&mut levels);
                top.items.push(item);
                let ghost top2 = top;
                levels.push(top);
                let ghost ds0 = diags@;
                let mut sdiags = sdiags;
                diags.append(&mut sdiags);
                proof {
                    let sc = scan_string(s, pos + 1);
                    let m = SpannedModel {
                        instruction: InstructionModel::WriteStr(sc.text),
                        span: Span { start: pos, end: sc.end as usize },
                    };
                    lemma_write_str_matches(item.instruction, sc.text);
                    lemma_spanned_matches(item, m);
                    lemma_emit_step(ls0, gm0.levels, item, m, top2);
                    lemma_diags_match_concat(ds0, gm0.diags, sd0, sc.diags);
                }
                pos = send;
            } else {
                let fname = false_name(c);
                let op_r = op_of_x(c);
                match fname {
                    Some(nc) => {
                        let item = Spanned::new(
                            FalseInstruction::Name(nc),
                            Span::new(pos, pos + 1),
                        );
                        let mut top = pop_last_level(&mut levels);
                        top.items.push(item);
                        let ghost top2 = top;
                        levels.push(top);
                        proof {
                            let m = SpannedModel {
                                instruction: InstructionModel::Name(c),
                                span: Span { start: pos, end: (pos + 1) as usize },
                            };
                            lemma_name_matches(item.instruction, c);
                            lemma_spanned_matches(item, m);
                            lemma_emit_step(ls0, gm0.levels, item, m, top2);
                        }
                        pos = pos + 1;
                    },
                    None => {
                        match op_r {
                            Some(instr) => {
                                let item = Spanned::new(instr, Span::new(pos, pos + 1));
                                let mut top = pop_last_level(&mut levels);
                                top.items.push(item);
                                let ghost top2 = top;
                                levels.push(top);
                                proof {
                                    let m = SpannedModel {
                                        instruction: op_of(c)->Some_0,
                                        span: Span { start: pos, end: (pos + 1) as usize },
                                    };
                                    lemma_spanned_matches(item, m);
                                    lemma_emit_step(ls0, gm0.levels, item, m, top2);
                                }
                                pos = pos + 1;
                            },
                            None => {
                                if c == '[' {
                                    let nl = Level { items: Vec::new(), pending: None, start: pos };
                                    let ghost nlg = nl;
                                    levels.push(nl);
                                    proof {
                                        let nm = LevelModel {
                                            items: Seq::<SpannedModel>::empty(),
                                            pending: None,
                                            start: pos as int,
                                        };
                                        assert(level_matches(nlg, nm));
                                        lemma_levels_match_push(ls0, gm0.levels, nlg, nm);
                                    }
                                    pos = pos + 1;
                                } else if c == ']' && levels.len() >= 2 {
                                    let ghost tm = gm0.levels.last();
                                    let ghost pm = gm0.levels.drop_last().last();
                                    proof {
                                        assert(level_matches(ls0[ls0.len() - 1], tm));
                                        assert(level_matches(
                                            ls0[ls0.len() - 2],
                                            gm0.levels[ls0.len() - 2],
                                        ));
                                    }
                                    let t = pop_last_level(&mut levels);
                                    let t_start = t.start;
                                    let mut t_items = t.items;
                                    match t.pending {
                                        Some((pv, psp)) => {
                                            let rc = Rc::new(pv);
                                            let lam = Spanned::new(
                                                FalseInstruction::Lambda(rc),
                                                psp,
                                            );
                                            let ghost pmod = tm.pending->Some_0;
                                            proof {
                                                lemma_lambda_matches(lam.instruction, rc, pmod.body);
                                                lemma_spanned_matches(
                                                    lam,
                                                    SpannedModel {
                                                        instruction: InstructionModel::Lambda(
                                                            pmod.body,
                                                        ),
                                                        span: pmod.span,
                                                    },
                                                );
                                                lemma_seq_matches_push(
                                                    t_items@,
                                                    tm.items,
                                                    lam,
                                                    SpannedModel {
                                                        instruction: InstructionModel::Lambda(
                                                            pmod.body,
                                                        ),
                                                        span: pmod.span,
                                                    },
                                                );
                                            }
                                            t_items.push(lam);
                                        },
                                        None => {},
                                    }
                                    proof {
                                        assert(seq_matches(t_items@, resolve_pending(tm)));
                                    }
                                    let e = pos + 1;
                                    let blk_span = Span::new(t_start, e);
                                    let mut parent = pop_last_level(&mut levels);
                                    let hash_follows: bool = if e < chars.len() {
                                        chars[e] == '#'
                                    } else {
                                        false
                                    };
                                    if hash_follows && parent.pending.is_some() {
                                        let pnd = parent.pending;
                                        parent.pending = None;
                                        match pnd {
                                            Some((pv, psp)) => {
                                                let rc_c = Rc::new(pv);
                                                let rc_b = Rc::new(t_items);
                                                let item = Spanned::new(
                                                    FalseInstruction::WhileLoop(rc_c, rc_b),
                                                    Span::new(psp.start, e + 1),
                                                );
                                                let ghost pmod = pm.pending->Some_0;
                                                let ghost im = SpannedModel {
                                                    instruction: InstructionModel::WhileLoop(
                                                        pmod.body,
                                                        resolve_pending(tm),
                                                    ),
                                                    span: Span {
                                                        start: pmod.span.start,
                                                        end: (e + 1) as usize,
                                                    },
                                                };
                                                proof {
                                                    lemma_while_matches(
                                                        item.instruction,
                                                        rc_c,
                                                        pmod.body,
                                                        rc_b,
                                                        resolve_pending(tm),
                                                    );
                                                    lemma_spanned_matches(item, im);
                                                    lemma_seq_matches_push(
                                                        parent.items@,
                                                        pm.items,
                                                        item,
                                                        im,
                                                    );
                                                }
                                                parent.items.push(item);
                                                pos = e + 1;
                                            },
                                            None => {
                                                proof {
                                                    assert(false);
                                                }
                                            },
                                        }
                                    } else {
                                        let pnd = parent.pending;
                                        parent.pending = None;
                                        match pnd {
                                            Some((pv, psp)) => {
                                                let rc = Rc::new(pv);
                                                let lam = Spanned::new(
                                                    FalseInstruction::Lambda(rc),
                                                    psp,
                                                );
                                                let ghost pmod = pm.pending->Some_0;
                                                proof {
                                                    lemma_lambda_matches(lam.instruction, rc, pmod.body);
                                                    lemma_spanned_matches(
                                                        lam,
                                                        SpannedModel {
                                                            instruction: InstructionModel::Lambda(
                                                                pmod.body,
                                                            ),
                                                            span: pmod.span,
                                                        },
                                                    );
                                                    lemma_seq_matches_push(
                                                        parent.items@,
                                                        pm.items,
                                                        lam,
                                                        SpannedModel {
                                                            instruction: InstructionModel::Lambda(
                                                                pmod.body,
                                                            ),
                                                            span: pmod.span,
                                                        },
                                                    );
                                                }
                                                parent.items.push(lam);
                                            },
                                            None => {},
                                        }
                                        proof {
                                            assert(seq_matches(
                                                parent.items@,
                                                resolve_pending(pm),
                                            ));
                                        }
                                        let quest_follows: bool = if e < chars.len() {
                                            chars[e] == '?'
                                        } else {
                                            false
                                        };
                                        let open_follows: bool = if e < chars.len() {
                                            chars[e] == '['
                                        } else {
                                            false
                                        };
                                        if quest_follows {
                                            let rc_b = Rc::new(t_items);
                                            let item = Spanned::new(
                                                FalseInstruction::ConditionalExecute(rc_b),
                                                Span::new(t_start, e + 1),
                                            );
                                            let ghost im = SpannedModel {
                                                instruction: InstructionModel::ConditionalExecute(
                                                    resolve_pending(tm),
                                                ),
                                                span: Span {
                                                    start: tm.start as usize,
                                                    end: (e + 1) as usize,
                                                },
                                            };
                                            proof {
                                                lemma_conditional_matches(
                                                    item.instruction,
                                                    rc_b,
                                                    resolve_pending(tm),
                                                );
                                                lemma_spanned_matches(item, im);
                                                lemma_seq_matches_push(
                                                    parent.items@,
                                                    resolve_pending(pm),
                                                    item,
                                                    im,
                                                );
                                            }
                                            parent.items.push(item);
                                            pos = e + 1;
                                        } else if open_follows {
                                            parent.pending = Some((t_items, blk_span));
                                            pos = e;
                                        } else {
                                            let rc_b = Rc::new(t_items);
                                            let item = Spanned::new(
                                                FalseInstruction::Lambda(rc_b),
                                                blk_span,
                                            );
                                            let ghost im = SpannedModel {
                                                instruction: InstructionModel::Lambda(
                                                    resolve_pending(tm),
                                                ),
                                                span: Span {
                                                    start: tm.start as usize,
                                                    end: e as usize,
                                                },
                                            };
                                            proof {
                                                lemma_lambda_matches(
                                                    item.instruction,
                                                    rc_b,
                                                    resolve_pending(tm),
                                                );
                                                lemma_spanned_matches(item, im);
                                                lemma_seq_matches_push(
                                                    parent.items@,
                                                    resolve_pending(pm),
                                                    item,
                                                    im,
                                                );
                                            }
                                            parent.items.push(item);
                                            pos = e;
                                        }
                                    }
                                    let ghost gparent = parent;
                                    levels.push(parent);
                                    proof {
                                        lemma_levels_match_drop_last(ls0, gm0.levels);
                                        assert(level_matches(
                                            gparent,
                                            gm.levels[gm.levels.len() - 1],
                                        ));
                                        lemma_levels_match_set_last(
                                            ls0.drop_last(),
                                            gm0.levels.drop_last(),
                                            gparent,
                                            gm.levels[gm.levels.len() - 1],
                                        );
                                        assert(gm.levels =~= gm0.levels.drop_last().update(
                                            gm0.levels.drop_last().len() - 1,
                                            gm.levels[gm.levels.len() - 1],
                                        ));
                                    }
                                } else {
                                    let d = mk_diag(
                                        Span::new(pos, pos + 1),
                                        ParseDiagKind::UnexpectedChar,
                                    );
                                    diags.push(d);
                                    pos = pos + 1;
                                }
                            },
                        }
                    },
                }
            }
        } else {
            proof {
                assert(run_parse(s, gm0) == run_parse(s, close_at_end(s, gm0)));
                gm = close_at_end(s, gm0);
            }
            let ghost tm = gm0.levels.last();
            let ghost pm = gm0.levels.drop_last().last();
            proof {
                assert(level_matches(ls0[ls0.len() - 1], tm));
                assert(level_matches(ls0[ls0.len() - 2], gm0.levels[ls0.len() - 2]));
            }
            let t = pop_last_level(&mut levels);
            let t_start = t.start;
            let mut t_items = t.items;
            match t.pending {
                Some((pv, psp)) => {
                    let rc = Rc::new(pv);
                    let lam = Spanned::new(FalseInstruction::Lambda(rc), psp);
                    let ghost pmod = tm.pending->Some_0;
                    proof {
                        lemma_lambda_matches(lam.instruction, rc, pmod.body);
                        lemma_spanned_matches(
                            lam,
                            SpannedModel {
                                instruction: InstructionModel::Lambda(pmod.body),
                                span: pmod.span,
                            },
                        );
                        lemma_seq_matches_push(
                            t_items@,
                            tm.items,
                            lam,
                            SpannedModel {
                                instruction: InstructionModel::Lambda(pmod.body),
                                span: pmod.span,
                            },
                        );
                    }
                    t_items.push(lam);
                },
                None => {},
            }
            proof {
                assert(seq_matches(t_items@, resolve_pending(tm)));
            }
            let blk_span = Span::new(t_start, chars.len());
            let mut parent = pop_last_level(&mut levels);
            let pnd = parent.pending;
            parent.pending = None;
            match pnd {
                Some((pv, psp)) => {
                    let rc = Rc::new(pv);
                    let lam = Spanned::new(FalseInstruction::Lambda(rc), psp);
                    let ghost pmod = pm.pending->Some_0;
                    proof {
                        lemma_lambda_matches(lam.instruction, rc, pmod.body);
                        lemma_spanned_matches(
                            lam,
                            SpannedModel {
                                instruction: InstructionModel::Lambda(pmod.body),
                                span: pmod.span,
                            },
                        );
                        lemma_seq_matches_push(
                            parent.items@,
                            pm.items,
                            lam,
                            SpannedModel {
                                instruction: InstructionModel::Lambda(pmod.body),
                                span: pmod.span,
                            },
                        );
                    }
                    parent.items.push(lam);
                },
                None => {},
            }
            proof {
                assert(seq_matches(parent.items@, resolve_pending(pm)));
            }
            let rc_b = Rc::new(t_items);
            let item = Spanned::new(FalseInstruction::Lambda(rc_b), blk_span);
            let ghost im = SpannedModel {
                instruction: InstructionModel::Lambda(resolve_pending(tm)),
                span: Span { start: tm.start as usize, end: s.len() as usize },
            };
            proof {
                lemma_lambda_matches(item.instruction, rc_b, resolve_pending(tm));
                lemma_spanned_matches(item, im);
                lemma_seq_matches_push(parent.items@, resolve_pending(pm), item, im);
            }
            parent.items.push(item);
            let d = mk_diag(blk_span, ParseDiagKind::MissingClose);
            diags.push(d);
            let ghost gparent = parent;
            levels.push(parent);
            proof {
                lemma_levels_match_drop_last(ls0, gm0.levels);
                assert(level_matches(gparent, gm.levels[gm.levels.len() - 1]));
                lemma_levels_match_set_last(
                    ls0.drop_last(),
                    gm0.levels.drop_last(),
                    gparent,
                    gm.levels[gm.levels.len() - 1],
                );
                assert(gm.levels =~= gm0.levels.drop_last().update(
                    gm0.levels.drop_last().len() - 1,
                    gm.levels[gm.levels.len() - 1],
                ));
            }
        }
    }
    proof {
        assert(run_parse(s, gm) == (resolve_pending(gm.levels.last()), gm.diags));
        assert(level_matches(levels@[0], gm.levels[0]));
    }
    let mut top = pop_last_level(&mut levels);
    let mut top_items = top.items;
    match top.pending {
        Some((pv, psp)) => {
            let rc = Rc::new(pv);
            let lam = Spanned::new(FalseInstruction::Lambda(rc), psp);
            let ghost pmod = gm.levels.last().pending->Some_0;
            proof {
                lemma_lambda_matches(lam.instruction, rc, pmod.body);
                lemma_spanned_matches(
                    lam,
                    SpannedModel {
                        instruction: InstructionModel::Lambda(pmod.body),
                        span: pmod.span,
                    },
                );
                lemma_seq_matches_push(
                    top_items@,
                    gm.levels.last().items,
                    lam,
                    SpannedModel {
                        instruction: InstructionModel::Lambda(pmod.body),
                        span: pmod.span,
                    },
                );
            }
            top_items.push(lam);
        },
        None => {},
    }
    proof {
        assert(seq_matches(top_items@, resolve_pending(gm.levels.last())));
    }
    (top_items, diags)
}

} // verus!
