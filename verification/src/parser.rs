//! The parser: tokens to the two instruction sequences.
//!
//! The grammar has two top-level blocks, `INIT { ... }` and `LOOP { ... }`,
//! each at most once, in either order.  `INIT` holds only object-creating
//! statements; `LOOP` holds the six timed actions.  Parsing is single-pass
//! with one token of lookahead and never backtracks.  Object indices are
//! not checked here: that check runs when the interpreter is built.

use vstd::prelude::*;
use crate::color::Color;
use crate::geom::Vec2;
use crate::lexer::{Token, TokenKind, TokenKindV, TokenV, view_tokens};
use crate::num::{self, in_range, spec_to_channel, spec_to_index};

verus! {

/// What an object-creating instruction makes: a rectangle, or a text with
/// its initial content.
#[derive(Clone, Debug, PartialEq)]
pub enum ObjInfo {
    Rect,
    Text(Vec<u8>),
}

/// The mathematical image of an [`ObjInfo`].
pub enum ObjInfoV {
    Rect,
    Text(Seq<u8>),
}

impl View for ObjInfo {
    type V = ObjInfoV;

    open spec fn view(&self) -> ObjInfoV {
        match self {
            ObjInfo::Rect => ObjInfoV::Rect,
            ObjInfo::Text(t) => ObjInfoV::Text(t@),
        }
    }
}

/// One unit of the parser's output.  Indices are zero-based ranks of
/// `Create` instructions in the setup sequence; durations are fixed-point
/// thousandths of a second.
#[derive(Clone, Debug, PartialEq)]
pub enum Instruction {
    Create(ObjInfo),
    Grow(usize, i64),
    Wait(i64),
    Fade(usize, Color, i64),
    Move(usize, Vec2, i64),
    Enable(usize),
    Disable(usize),
}

/// The mathematical image of an [`Instruction`].
pub enum InstructionV {
    Create(ObjInfoV),
    Grow(usize, i64),
    Wait(i64),
    Fade(usize, Color, i64),
    Move(usize, Vec2, i64),
    Enable(usize),
    Disable(usize),
}

impl View for Instruction {
    type V = InstructionV;

    open spec fn view(&self) -> InstructionV {
        match self {
            Instruction::Create(o) => InstructionV::Create(o@),
            Instruction::Grow(k, d) => InstructionV::Grow(*k, *d),
            Instruction::Wait(d) => InstructionV::Wait(*d),
            Instruction::Fade(k, c, d) => InstructionV::Fade(*k, *c, *d),
            Instruction::Move(k, v, d) => InstructionV::Move(*k, *v, *d),
            Instruction::Enable(k) => InstructionV::Enable(*k),
            Instruction::Disable(k) => InstructionV::Disable(*k),
        }
    }
}

/// The views of a sequence of instructions, element-wise.
pub open spec fn view_insts(is: Seq<Instruction>) -> Seq<InstructionV> {
    is.map_values(|i: Instruction| i@)
}

/// A token kind stripped of its payload, for error reports.
#[derive(Clone, Copy, Debug, PartialEq, Eq, Structural)]
pub enum TokenClass {
    Ocurly,
    Ccurly,
    Oparen,
    Cparen,
    Semicolon,
    Number,
    Text,
    ColorDef,
    Vector2Def,
    On,
    Off,
    Init,
    Loop,
    RectObj,
    TextObj,
    Grow,
    Wait,
    Fade,
    Move,
}

/// The class of a token kind.
pub open spec fn class_of(k: TokenKindV) -> TokenClass {
    match k {
        TokenKindV::Ocurly => TokenClass::Ocurly,
        TokenKindV::Ccurly => TokenClass::Ccurly,
        TokenKindV::Oparen => TokenClass::Oparen,
        TokenKindV::Cparen => TokenClass::Cparen,
        TokenKindV::Semicolon => TokenClass::Semicolon,
        TokenKindV::Number(_) => TokenClass::Number,
        TokenKindV::Text(_) => TokenClass::Text,
        TokenKindV::ColorDef => TokenClass::ColorDef,
        TokenKindV::Vector2Def => TokenClass::Vector2Def,
        TokenKindV::On => TokenClass::On,
        TokenKindV::Off => TokenClass::Off,
        TokenKindV::Init => TokenClass::Init,
        TokenKindV::Loop => TokenClass::Loop,
        TokenKindV::RectObj => TokenClass::RectObj,
        TokenKindV::TextObj => TokenClass::TextObj,
        TokenKindV::Grow => TokenClass::Grow,
        TokenKindV::Wait => TokenClass::Wait,
        TokenKindV::Fade => TokenClass::Fade,
        TokenKindV::Move => TokenClass::Move,
    }
}

/// What the parser was looking for when it stopped.
#[derive(Clone, Copy, Debug, PartialEq, Eq, Structural)]
pub enum Expected {
    /// `INIT` or `LOOP` at the top level.
    Block,
    /// A block kind that has not appeared yet: each may appear at most once.
    UniqueBlock,
    /// `RECT`, `TEXT` or `}` inside the setup block.
    InitStmt,
    /// One of the six actions or `}` inside the loop block.
    LoopStmt,
    Ocurly,
    Oparen,
    Cparen,
    Semicolon,
    Number,
    Text,
    ColorDef,
    Vector2Def,
}

/// A structural parse error: the 1-based line of the offending token, what
/// was expected there, and the class of the token found (`None` at the end
/// of input).
#[derive(Clone, Copy, Debug, PartialEq, Eq, Structural)]
pub struct ParseError {
    pub line: usize,
    pub expected: Expected,
    pub found: Option<TokenClass>,
}

/// The line a parse error at position `k` reports: the token's own line, or
/// the last token's line at the end of input (1 with no tokens at all).
pub open spec fn end_line(toks: Seq<TokenV>) -> usize {
    if toks.len() == 0 {
        1
    } else {
        toks[toks.len() - 1].line
    }
}

/// The token class found at position `k`, or `None` past the end.
pub open spec fn found_at(toks: Seq<TokenV>, k: int) -> Option<TokenClass> {
    if 0 <= k < toks.len() {
        Some(class_of(toks[k].kind))
    } else {
        None
    }
}

/// The parse error reported at position `k`.
pub open spec fn perr(toks: Seq<TokenV>, k: int, expected: Expected) -> ParseError {
    ParseError {
        line: if 0 <= k < toks.len() {
            toks[k].line
        } else {
            end_line(toks)
        },
        expected,
        found: found_at(toks, k),
    }
}

/// Whether position `k` holds a token of class `c`.
pub open spec fn is_k(toks: Seq<TokenV>, k: int, c: TokenClass) -> bool {
    0 <= k < toks.len() && class_of(toks[k].kind) == c
}

/// The numeric payload at position `k` (zero on any other token).
pub open spec fn num_of(toks: Seq<TokenV>, k: int) -> i64 {
    match toks[k].kind {
        TokenKindV::Number(v) => v,
        _ => 0,
    }
}

/// The text payload at position `k` (empty on any other token).
pub open spec fn text_of(toks: Seq<TokenV>, k: int) -> Seq<u8> {
    match toks[k].kind {
        TokenKindV::Text(t) => t,
        _ => Seq::empty(),
    }
}

/// Whether every number token carries a fixed-point scalar in range, as
/// every token sequence the lexer produces does.
pub open spec fn tokens_bounded(toks: Seq<TokenV>) -> bool {
    forall|k: int|
        0 <= k < toks.len() ==> match (#[trigger] toks[k]).kind {
            TokenKindV::Number(v) => in_range(v),
            _ => true,
        }
}

/// The setup statements from position `i` on, appended to `acc`: only
/// `RECT ;` and `TEXT "..." ;` until the closing brace.  Returns the
/// gathered sequence and the position after the brace.
pub open spec fn parse_init_stmts(toks: Seq<TokenV>, i: int, acc: Seq<InstructionV>) -> Result<
    (Seq<InstructionV>, int),
    ParseError,
>
    recommends
        0 <= i,
    decreases toks.len() - i when 0 <= i
{
    if i >= toks.len() {
        Err(perr(toks, i, Expected::InitStmt))
    } else {
        match toks[i].kind {
            TokenKindV::Ccurly => Ok((acc, i + 1)),
            TokenKindV::RectObj => if !is_k(toks, i + 1, TokenClass::Semicolon) {
                Err(perr(toks, i + 1, Expected::Semicolon))
            } else {
                parse_init_stmts(toks, i + 2, acc.push(InstructionV::Create(ObjInfoV::Rect)))
            },
            TokenKindV::TextObj => if !is_k(toks, i + 1, TokenClass::Text) {
                Err(perr(toks, i + 1, Expected::Text))
            } else if !is_k(toks, i + 2, TokenClass::Semicolon) {
                Err(perr(toks, i + 2, Expected::Semicolon))
            } else {
                parse_init_stmts(
                    toks,
                    i + 3,
                    acc.push(InstructionV::Create(ObjInfoV::Text(text_of(toks, i + 1)))),
                )
            },
            _ => Err(perr(toks, i, Expected::InitStmt)),
        }
    }
}

/// The loop statements from position `i` on, appended to `acc`: the six
/// actions until the closing brace.  Returns the gathered sequence and the
/// position after the brace.
pub open spec fn parse_loop_stmts(toks: Seq<TokenV>, i: int, acc: Seq<InstructionV>) -> Result<
    (Seq<InstructionV>, int),
    ParseError,
>
    recommends
        0 <= i,
    decreases toks.len() - i when 0 <= i
{
    if i >= toks.len() {
        Err(perr(toks, i, Expected::LoopStmt))
    } else {
        match toks[i].kind {
            TokenKindV::Ccurly => Ok((acc, i + 1)),
            TokenKindV::Grow => if !is_k(toks, i + 1, TokenClass::Number) {
                Err(perr(toks, i + 1, Expected::Number))
            } else if !is_k(toks, i + 2, TokenClass::Number) {
                Err(perr(toks, i + 2, Expected::Number))
            } else if !is_k(toks, i + 3, TokenClass::Semicolon) {
                Err(perr(toks, i + 3, Expected::Semicolon))
            } else {
                parse_loop_stmts(
                    toks,
                    i + 4,
                    acc.push(
                        InstructionV::Grow(
                            spec_to_index(num_of(toks, i + 1)) as usize,
                            num_of(toks, i + 2),
                        ),
                    ),
                )
            },
            TokenKindV::Wait => if !is_k(toks, i + 1, TokenClass::Number) {
                Err(perr(toks, i + 1, Expected::Number))
            } else if !is_k(toks, i + 2, TokenClass::Semicolon) {
                Err(perr(toks, i + 2, Expected::Semicolon))
            } else {
                parse_loop_stmts(toks, i + 3, acc.push(InstructionV::Wait(num_of(toks, i + 1))))
            },
            TokenKindV::Fade => if !is_k(toks, i + 1, TokenClass::Number) {
                Err(perr(toks, i + 1, Expected::Number))
            } else if !is_k(toks, i + 2, TokenClass::ColorDef) {
                Err(perr(toks, i + 2, Expected::ColorDef))
            } else if !is_k(toks, i + 3, TokenClass::Oparen) {
                Err(perr(toks, i + 3, Expected::Oparen))
            } else if !is_k(toks, i + 4, TokenClass::Number) {
                Err(perr(toks, i + 4, Expected::Number))
            } else if !is_k(toks, i + 5, TokenClass::Number) {
                Err(perr(toks, i + 5, Expected::Number))
            } else if !is_k(toks, i + 6, TokenClass::Number) {
                Err(perr(toks, i + 6, Expected::Number))
            } else if !is_k(toks, i + 7, TokenClass::Number) {
                Err(perr(toks, i + 7, Expected::Number))
            } else if !is_k(toks, i + 8, TokenClass::Cparen) {
                Err(perr(toks, i + 8, Expected::Cparen))
            } else if !is_k(toks, i + 9, TokenClass::Number) {
                Err(perr(toks, i + 9, Expected::Number))
            } else if !is_k(toks, i + 10, TokenClass::Semicolon) {
                Err(perr(toks, i + 10, Expected::Semicolon))
            } else {
                parse_loop_stmts(
                    toks,
                    i + 11,
                    acc.push(
                        InstructionV::Fade(
                            spec_to_index(num_of(toks, i + 1)) as usize,
                            Color {
                                r: spec_to_channel(num_of(toks, i + 4)),
                                g: spec_to_channel(num_of(toks, i + 5)),
                                b: spec_to_channel(num_of(toks, i + 6)),
                                a: spec_to_channel(num_of(toks, i + 7)),
                            },
                            num_of(toks, i + 9),
                        ),
                    ),
                )
            },
            TokenKindV::Move => if !is_k(toks, i + 1, TokenClass::Number) {
                Err(perr(toks, i + 1, Expected::Number))
            } else if !is_k(toks, i + 2, TokenClass::Vector2Def) {
                Err(perr(toks, i + 2, Expected::Vector2Def))
            } else if !is_k(toks, i + 3, TokenClass::Oparen) {
                Err(perr(toks, i + 3, Expected::Oparen))
            } else if !is_k(toks, i + 4, TokenClass::Number) {
                Err(perr(toks, i + 4, Expected::Number))
            } else if !is_k(toks, i + 5, TokenClass::Number) {
                Err(perr(toks, i + 5, Expected::Number))
            } else if !is_k(toks, i + 6, TokenClass::Cparen) {
                Err(perr(toks, i + 6, Expected::Cparen))
            } else if !is_k(toks, i + 7, TokenClass::Number) {
                Err(perr(toks, i + 7, Expected::Number))
            } else if !is_k(toks, i + 8, TokenClass::Semicolon) {
                Err(perr(toks, i + 8, Expected::Semicolon))
            } else {
                parse_loop_stmts(
                    toks,
                    i + 9,
                    acc.push(
                        InstructionV::Move(
                            spec_to_index(num_of(toks, i + 1)) as usize,
                            Vec2::Relative(num_of(toks, i + 4), num_of(toks, i + 5)),
                            num_of(toks, i + 7),
                        ),
                    ),
                )
            },
            TokenKindV::On => if !is_k(toks, i + 1, TokenClass::Number) {
                Err(perr(toks, i + 1, Expected::Number))
            } else if !is_k(toks, i + 2, TokenClass::Semicolon) {
                Err(perr(toks, i + 2, Expected::Semicolon))
            } else {
                parse_loop_stmts(
                    toks,
                    i + 3,
                    acc.push(
                        InstructionV::Enable(spec_to_index(num_of(toks, i + 1)) as usize),
                    ),
                )
            },
            TokenKindV::Off => if !is_k(toks, i + 1, TokenClass::Number) {
                Err(perr(toks, i + 1, Expected::Number))
            } else if !is_k(toks, i + 2, TokenClass::Semicolon) {
                Err(perr(toks, i + 2, Expected::Semicolon))
            } else {
                parse_loop_stmts(
                    toks,
                    i + 3,
                    acc.push(
                        InstructionV::Disable(spec_to_index(num_of(toks, i + 1)) as usize),
                    ),
                )
            },
            _ => Err(perr(toks, i, Expected::LoopStmt)),
        }
    }
}

/// A statement run that succeeds always moves forward and never past the
/// end of the tokens.
pub proof fn lemma_stmts_bounds(toks: Seq<TokenV>, i: int, acc: Seq<InstructionV>)
    requires
        0 <= i,
    ensures
        parse_init_stmts(toks, i, acc) matches Ok((a2, i2)) ==> i < i2 <= toks.len(),
        parse_loop_stmts(toks, i, acc) matches Ok((b2, j2)) ==> i < j2 <= toks.len(),
    decreases toks.len() - i,
{
    if i < toks.len() {
        match toks[i].kind {
            TokenKindV::RectObj => {
                if parse_init_stmts(toks, i, acc) is Ok {
                    lemma_stmts_bounds(toks, i + 2, acc.push(InstructionV::Create(ObjInfoV::Rect)));
                }
            },
            TokenKindV::TextObj => {
                if parse_init_stmts(toks, i, acc) is Ok {
                    lemma_stmts_bounds(
                        toks,
                        i + 3,
                        acc.push(InstructionV::Create(ObjInfoV::Text(text_of(toks, i + 1)))),
                    );
                }
            },
            TokenKindV::Grow => {
                if parse_loop_stmts(toks, i, acc) is Ok {
                    lemma_stmts_bounds(
                        toks,
                        i + 4,
                        acc.push(
                            InstructionV::Grow(
                                spec_to_index(num_of(toks, i + 1)) as usize,
                                num_of(toks, i + 2),
                            ),
                        ),
                    );
                }
            },
            TokenKindV::Wait => {
                if parse_loop_stmts(toks, i, acc) is Ok {
                    lemma_stmts_bounds(toks, i + 3, acc.push(InstructionV::Wait(num_of(toks, i + 1))));
                }
            },
            TokenKindV::Fade => {
                if parse_loop_stmts(toks, i, acc) is Ok {
                    lemma_stmts_bounds(
                        toks,
                        i + 11,
                        acc.push(
                            InstructionV::Fade(
                                spec_to_index(num_of(toks, i + 1)) as usize,
                                Color {
                                    r: spec_to_channel(num_of(toks, i + 4)),
                                    g: spec_to_channel(num_of(toks, i + 5)),
                                    b: spec_to_channel(num_of(toks, i + 6)),
                                    a: spec_to_channel(num_of(toks, i + 7)),
                                },
                                num_of(toks, i + 9),
                            ),
                        ),
                    );
                }
            },
            TokenKindV::Move => {
                if parse_loop_stmts(toks, i, acc) is Ok {
                    lemma_stmts_bounds(
                        toks,
                        i + 9,
                        acc.push(
                            InstructionV::Move(
                                spec_to_index(num_of(toks, i + 1)) as usize,
                                Vec2::Relative(num_of(toks, i + 4), num_of(toks, i + 5)),
                                num_of(toks, i + 7),
                            ),
                        ),
                    );
                }
            },
            TokenKindV::On => {
                if parse_loop_stmts(toks, i, acc) is Ok {
                    lemma_stmts_bounds(
                        toks,
                        i + 3,
                        acc.push(InstructionV::Enable(spec_to_index(num_of(toks, i + 1)) as usize)),
                    );
                }
            },
            TokenKindV::Off => {
                if parse_loop_stmts(toks, i, acc) is Ok {
                    lemma_stmts_bounds(
                        toks,
                        i + 3,
                        acc.push(InstructionV::Disable(spec_to_index(num_of(toks, i + 1)) as usize)),
                    );
                }
            },
            _ => {},
        }
    }
}

/// The blocks from position `i` on, with the blocks already seen and the
/// statements already gathered.
pub open spec fn parse_from(
    toks: Seq<TokenV>,
    i: int,
    seen_init: bool,
    seen_loop: bool,
    setup: Seq<InstructionV>,
    loops: Seq<InstructionV>,
) -> Result<(Seq<InstructionV>, Seq<InstructionV>), ParseError>
    recommends
        0 <= i,
    decreases toks.len() - i when 0 <= i via parse_from_decreases
{
    if i >= toks.len() {
        Ok((setup, loops))
    } else {
        match toks[i].kind {
            TokenKindV::Init => if seen_init {
                Err(perr(toks, i, Expected::UniqueBlock))
            } else if !is_k(toks, i + 1, TokenClass::Ocurly) {
                Err(perr(toks, i + 1, Expected::Ocurly))
            } else {
                match parse_init_stmts(toks, i + 2, setup) {
                    Ok((setup2, i2)) => parse_from(toks, i2, true, seen_loop, setup2, loops),
                    Err(e) => Err(e),
                }
            },
            TokenKindV::Loop => if seen_loop {
                Err(perr(toks, i, Expected::UniqueBlock))
            } else if !is_k(toks, i + 1, TokenClass::Ocurly) {
                Err(perr(toks, i + 1, Expected::Ocurly))
            } else {
                match parse_loop_stmts(toks, i + 2, loops) {
                    Ok((loops2, i2)) => parse_from(toks, i2, seen_init, true, setup, loops2),
                    Err(e) => Err(e),
                }
            },
            _ => Err(perr(toks, i, Expected::Block)),
        }
    }
}

#[via_fn]
proof fn parse_from_decreases(
    toks: Seq<TokenV>,
    i: int,
    seen_init: bool,
    seen_loop: bool,
    setup: Seq<InstructionV>,
    loops: Seq<InstructionV>,
) {
    if 0 <= i < toks.len() {
        lemma_stmts_bounds(toks, i + 2, setup);
        lemma_stmts_bounds(toks, i + 2, loops);
    }
}

/// The two instruction sequences of a token sequence: the one-shot setup
/// sequence and the loop sequence, or the first structural error.
pub open spec fn spec_parse(toks: Seq<TokenV>) -> Result<
    (Seq<InstructionV>, Seq<InstructionV>),
    ParseError,
> {
    parse_from(toks, 0, false, false, Seq::empty(), Seq::empty())
}

/// Whether an instruction's scalars lie in the fixed-point range, with a
/// relative move target — as every instruction the parser emits has.
pub open spec fn wf_inst(i: InstructionV) -> bool {
    match i {
        InstructionV::Create(_) => true,
        InstructionV::Grow(_, d) => in_range(d),
        InstructionV::Wait(d) => in_range(d),
        InstructionV::Fade(_, _, d) => in_range(d),
        InstructionV::Move(_, t, d) => in_range(d) && t.is_relative() && t.bounded(),
        InstructionV::Enable(_) => true,
        InstructionV::Disable(_) => true,
    }
}

/// Whether every instruction of a sequence is well-formed.
pub open spec fn insts_wf(is: Seq<InstructionV>) -> bool {
    forall|k: int| 0 <= k < is.len() ==> wf_inst(#[trigger] is[k])
}

/// Pushing a well-formed instruction keeps a sequence well-formed.
proof fn lemma_insts_wf_push(is: Seq<InstructionV>, i: InstructionV)
    requires
        insts_wf(is),
        wf_inst(i),
    ensures
        insts_wf(is.push(i)),
{
    let is2 = is.push(i);
    assert forall|k: int| 0 <= k < is2.len() implies wf_inst(#[trigger] is2[k]) by {
        if k < is.len() {
            assert(is2[k] == is[k]);
        } else {
            assert(is2[k] == i);
        }
    }
}

/// Every instruction a statement run gathers from bounded tokens is
/// well-formed.
pub proof fn lemma_stmts_wf(toks: Seq<TokenV>, i: int, acc: Seq<InstructionV>)
    requires
        0 <= i,
        tokens_bounded(toks),
        insts_wf(acc),
    ensures
        parse_init_stmts(toks, i, acc) matches Ok(p) ==> insts_wf(p.0),
        parse_loop_stmts(toks, i, acc) matches Ok(p) ==> insts_wf(p.0),
    decreases toks.len() - i,
{
    if i < toks.len() {
        match toks[i].kind {
            TokenKindV::RectObj => {
                if parse_init_stmts(toks, i, acc) is Ok {
                    let inst = InstructionV::Create(ObjInfoV::Rect);
                    lemma_insts_wf_push(acc, inst);
                    lemma_stmts_wf(toks, i + 2, acc.push(inst));
                }
            },
            TokenKindV::TextObj => {
                if parse_init_stmts(toks, i, acc) is Ok {
                    let inst = InstructionV::Create(ObjInfoV::Text(text_of(toks, i + 1)));
                    lemma_insts_wf_push(acc, inst);
                    lemma_stmts_wf(toks, i + 3, acc.push(inst));
                }
            },
            TokenKindV::Grow => {
                if parse_loop_stmts(toks, i, acc) is Ok {
                    let inst = InstructionV::Grow(
                        spec_to_index(num_of(toks, i + 1)) as usize,
                        num_of(toks, i + 2),
                    );
                    assert(wf_inst(inst)) by {
                        assert(toks[i + 2].kind matches TokenKindV::Number(v) ==> in_range(v));
                    }
                    lemma_insts_wf_push(acc, inst);
                    lemma_stmts_wf(toks, i + 4, acc.push(inst));
                }
            },
            TokenKindV::Wait => {
                if parse_loop_stmts(toks, i, acc) is Ok {
                    let inst = InstructionV::Wait(num_of(toks, i + 1));
                    assert(wf_inst(inst)) by {
                        assert(toks[i + 1].kind matches TokenKindV::Number(v) ==> in_range(v));
                    }
                    lemma_insts_wf_push(acc, inst);
                    lemma_stmts_wf(toks, i + 3, acc.push(inst));
                }
            },
            TokenKindV::Fade => {
                if parse_loop_stmts(toks, i, acc) is Ok {
                    let inst = InstructionV::Fade(
                        spec_to_index(num_of(toks, i + 1)) as usize,
                        Color {
                            r: spec_to_channel(num_of(toks, i + 4)),
                            g: spec_to_channel(num_of(toks, i + 5)),
                            b: spec_to_channel(num_of(toks, i + 6)),
                            a: spec_to_channel(num_of(toks, i + 7)),
                        },
                        num_of(toks, i + 9),
                    );
                    assert(wf_inst(inst)) by {
                        assert(toks[i + 9].kind matches TokenKindV::Number(v) ==> in_range(v));
                    }
                    lemma_insts_wf_push(acc, inst);
                    lemma_stmts_wf(toks, i + 11, acc.push(inst));
                }
            },
            TokenKindV::Move => {
                if parse_loop_stmts(toks, i, acc) is Ok {
                    let inst = InstructionV::Move(
                        spec_to_index(num_of(toks, i + 1)) as usize,
                        Vec2::Relative(num_of(toks, i + 4), num_of(toks, i + 5)),
                        num_of(toks, i + 7),
                    );
                    assert(wf_inst(inst)) by {
                        assert(toks[i + 4].kind matches TokenKindV::Number(v) ==> in_range(v));
                        assert(toks[i + 5].kind matches TokenKindV::Number(v) ==> in_range(v));
                        assert(toks[i + 7].kind matches TokenKindV::Number(v) ==> in_range(v));
                    }
                    lemma_insts_wf_push(acc, inst);
                    lemma_stmts_wf(toks, i + 9, acc.push(inst));
                }
            },
            TokenKindV::On => {
                if parse_loop_stmts(toks, i, acc) is Ok {
                    let inst = InstructionV::Enable(spec_to_index(num_of(toks, i + 1)) as usize);
                    lemma_insts_wf_push(acc, inst);
                    lemma_stmts_wf(toks, i + 3, acc.push(inst));
                }
            },
            TokenKindV::Off => {
                if parse_loop_stmts(toks, i, acc) is Ok {
                    let inst = InstructionV::Disable(spec_to_index(num_of(toks, i + 1)) as usize);
                    lemma_insts_wf_push(acc, inst);
                    lemma_stmts_wf(toks, i + 3, acc.push(inst));
                }
            },
            _ => {},
        }
    }
}

/// Every instruction a parse of bounded tokens emits is well-formed.
pub proof fn lemma_parse_wf_from(
    toks: Seq<TokenV>,
    i: int,
    seen_init: bool,
    seen_loop: bool,
    setup: Seq<InstructionV>,
    loops: Seq<InstructionV>,
)
    requires
        0 <= i,
        tokens_bounded(toks),
        insts_wf(setup),
        insts_wf(loops),
    ensures
        parse_from(toks, i, seen_init, seen_loop, setup, loops) matches Ok(p) ==> insts_wf(p.0)
            && insts_wf(p.1),
    decreases toks.len() - i,
{
    if i < toks.len() {
        match toks[i].kind {
            TokenKindV::Init => {
                if !seen_init && is_k(toks, i + 1, TokenClass::Ocurly) {
                    match parse_init_stmts(toks, i + 2, setup) {
                        Ok(p) => {
                            lemma_stmts_bounds(toks, i + 2, setup);
                            lemma_stmts_wf(toks, i + 2, setup);
                            lemma_parse_wf_from(toks, p.1, true, seen_loop, p.0, loops);
                        },
                        Err(_) => {},
                    }
                }
            },
            TokenKindV::Loop => {
                if !seen_loop && is_k(toks, i + 1, TokenClass::Ocurly) {
                    match parse_loop_stmts(toks, i + 2, loops) {
                        Ok(p) => {
                            lemma_stmts_bounds(toks, i + 2, loops);
                            lemma_stmts_wf(toks, i + 2, loops);
                            lemma_parse_wf_from(toks, p.1, seen_init, true, setup, p.0);
                        },
                        Err(_) => {},
                    }
                }
            },
            _ => {},
        }
    }
}

/// Every instruction a successful parse of bounded tokens emits is
/// well-formed.
pub proof fn lemma_parse_wf(toks: Seq<TokenV>)
    requires
        tokens_bounded(toks),
    ensures
        spec_parse(toks) matches Ok(p) ==> insts_wf(p.0) && insts_wf(p.1),
{
    lemma_parse_wf_from(toks, 0, false, false, Seq::empty(), Seq::empty());
}

/// Pushing an instruction commutes with taking views.
proof fn lemma_view_insts_push(is: Seq<Instruction>, i: Instruction)
    ensures
        view_insts(is.push(i)) =~= view_insts(is).push(i@),
{
}

/// The class of a token kind, computed.
fn class_of_exec(k: &TokenKind) -> (r: TokenClass)
    ensures
        r == class_of(k@),
{
    match k {
        TokenKind::Ocurly => TokenClass::Ocurly,
        TokenKind::Ccurly => TokenClass::Ccurly,
        TokenKind::Oparen => TokenClass::Oparen,
        TokenKind::Cparen => TokenClass::Cparen,
        TokenKind::Semicolon => TokenClass::Semicolon,
        TokenKind::Number(_) => TokenClass::Number,
        TokenKind::Text(_) => TokenClass::Text,
        TokenKind::ColorDef => TokenClass::ColorDef,
        TokenKind::Vector2Def => TokenClass::Vector2Def,
        TokenKind::On => TokenClass::On,
        TokenKind::Off => TokenClass::Off,
        TokenKind::Init => TokenClass::Init,
        TokenKind::Loop => TokenClass::Loop,
        TokenKind::RectObj => TokenClass::RectObj,
        TokenKind::TextObj => TokenClass::TextObj,
        TokenKind::Grow => TokenClass::Grow,
        TokenKind::Wait => TokenClass::Wait,
        TokenKind::Fade => TokenClass::Fade,
        TokenKind::Move => TokenClass::Move,
    }
}

/// Builds the parse error reported at position `k`.
fn make_err(tokens: &Vec<Token>, k: usize, expected: Expected) -> (r: ParseError)
    ensures
        r == perr(view_tokens(tokens@), k as int, expected),
{
    let n = tokens.len();
    if k < n {
        let t = &tokens[k];
        proof {
            assert(view_tokens(tokens@)[k as int] == tokens@[k as int]@);
        }
        ParseError { line: t.line, expected, found: Some(class_of_exec(&t.kind)) }
    } else if n == 0 {
        ParseError { line: 1, expected, found: None }
    } else {
        let t = &tokens[n - 1];
        proof {
            assert(view_tokens(tokens@)[n - 1] == tokens@[n - 1]@);
        }
        ParseError { line: t.line, expected, found: None }
    }
}

/// Whether position `k` holds a token of class `c`.
fn class_at(tokens: &Vec<Token>, k: usize, c: TokenClass) -> (r: bool)
    ensures
        r == is_k(view_tokens(tokens@), k as int, c),
{
    if k >= tokens.len() {
        return false;
    }
    proof {
        assert(view_tokens(tokens@)[k as int] == tokens@[k as int]@);
    }
    let cls = class_of_exec(&tokens[k].kind);
    cls == c
}

/// The numeric payload at position `k`, if a number stands there.
fn number_at(tokens: &Vec<Token>, k: usize) -> (r: Option<i64>)
    ensures
        ({
            let tv = view_tokens(tokens@);
            match r {
                Some(v) => is_k(tv, k as int, TokenClass::Number) && v == num_of(tv, k as int),
                None => !is_k(tv, k as int, TokenClass::Number),
            }
        }),
{
    if k >= tokens.len() {
        return None;
    }
    proof {
        assert(view_tokens(tokens@)[k as int] == tokens@[k as int]@);
    }
    match &tokens[k].kind {
        TokenKind::Number(v) => Some(*v),
        _ => None,
    }
}

/// Copies a byte vector.
pub(crate) fn copy_bytes(src: &Vec<u8>) -> (r: Vec<u8>)
    ensures
        r@ == src@,
{
    let mut out: Vec<u8> = Vec::new();
    let mut k: usize = 0;
    let n = src.len();
    while k < n
        invariant
            k <= n,
            n == src@.len(),
            out@ == src@.subrange(0, k as int),
        decreases n - k,
    {
        out.push(src[k]);
        proof {
            assert(out@ =~= src@.subrange(0, k as int + 1));
        }
        k += 1;
    }
    proof {
        assert(out@ =~= src@);
    }
    out
}

/// Parses the setup statements from `start` on, pushing onto `setup`, and
/// returns the gathered vector with the position after the closing brace.
fn parse_init_block(tokens: &Vec<Token>, start: usize, setup: Vec<Instruction>) -> (r: Result<
    (Vec<Instruction>, usize),
    ParseError,
>)
    ensures
        ({
            let tv = view_tokens(tokens@);
            match r {
                Ok(p) => parse_init_stmts(tv, start as int, view_insts(setup@)) == Ok::<
                    _,
                    ParseError,
                >((view_insts(p.0@), p.1 as int)),
                Err(e) => parse_init_stmts(tv, start as int, view_insts(setup@)) == Err::<
                    (Seq<InstructionV>, int),
                    _,
                >(e),
            }
        }),
{
    let ghost tv = view_tokens(tokens@);
    let ghost acc0 = view_insts(setup@);
    let n = tokens.len();
    let mut out = setup;
    let mut i: usize = start;
    loop
        invariant
            start <= i,
            n == tokens@.len(),
            tv == view_tokens(tokens@),
            acc0 == view_insts(setup@),
            parse_init_stmts(tv, start as int, acc0) == parse_init_stmts(
                tv,
                i as int,
                view_insts(out@),
            ),
        decreases tv.len() - i,
    {
        if i >= n {
            return Err(make_err(tokens, i, Expected::InitStmt));
        }
        let t = &tokens[i];
        proof {
            assert(tv[i as int] == tokens@[i as int]@);
        }
        match &t.kind {
            TokenKind::Ccurly => {
                return Ok((out, i + 1));
            },
            TokenKind::RectObj => {
                if !class_at(tokens, i + 1, TokenClass::Semicolon) {
                    return Err(make_err(tokens, i + 1, Expected::Semicolon));
                }
                proof {
                    lemma_view_insts_push(out@, Instruction::Create(ObjInfo::Rect));
                }
                out.push(Instruction::Create(ObjInfo::Rect));
                i += 2;
            },
            TokenKind::TextObj => {
                if i + 1 >= n {
                    return Err(make_err(tokens, i + 1, Expected::Text));
                }
                proof {
                    assert(tv[i as int + 1] == tokens@[i as int + 1]@);
                }
                let content = match &tokens[i + 1].kind {
                    TokenKind::Text(txt) => copy_bytes(txt),
                    _ => {
                        return Err(make_err(tokens, i + 1, Expected::Text));
                    },
                };
                if !class_at(tokens, i + 2, TokenClass::Semicolon) {
                    return Err(make_err(tokens, i + 2, Expected::Semicolon));
                }
                proof {
                    lemma_view_insts_push(out@, Instruction::Create(ObjInfo::Text(content)));
                }
                out.push(Instruction::Create(ObjInfo::Text(content)));
                i += 3;
            },
            _ => {
                return Err(make_err(tokens, i, Expected::InitStmt));
            },
        }
    }
}

/// Parses the loop statements from `start` on, pushing onto `loops`, and
/// returns the gathered vector with the position after the closing brace.
fn parse_loop_block(tokens: &Vec<Token>, start: usize, loops: Vec<Instruction>) -> (r: Result<
    (Vec<Instruction>, usize),
    ParseError,
>)
    requires
        tokens_bounded(view_tokens(tokens@)),
    ensures
        ({
            let tv = view_tokens(tokens@);
            match r {
                Ok(p) => parse_loop_stmts(tv, start as int, view_insts(loops@)) == Ok::<
                    _,
                    ParseError,
                >((view_insts(p.0@), p.1 as int)),
                Err(e) => parse_loop_stmts(tv, start as int, view_insts(loops@)) == Err::<
                    (Seq<InstructionV>, int),
                    _,
                >(e),
            }
        }),
{
    let ghost tv = view_tokens(tokens@);
    let ghost acc0 = view_insts(loops@);
    let n = tokens.len();
    let mut out = loops;
    let mut i: usize = start;
    loop
        invariant
            start <= i,
            n == tokens@.len(),
            tv == view_tokens(tokens@),
            tokens_bounded(tv),
            acc0 == view_insts(loops@),
            parse_loop_stmts(tv, start as int, acc0) == parse_loop_stmts(
                tv,
                i as int,
                view_insts(out@),
            ),
        decreases tv.len() - i,
    {
        if i >= n {
            return Err(make_err(tokens, i, Expected::LoopStmt));
        }
        let t = &tokens[i];
        proof {
            assert(tv[i as int] == tokens@[i as int]@);
        }
        match &t.kind {
            TokenKind::Ccurly => {
                return Ok((out, i + 1));
            },
            TokenKind::Grow => {
                let ind = match number_at(tokens, i + 1) {
                    Some(v) => v,
                    None => {
                        return Err(make_err(tokens, i + 1, Expected::Number));
                    },
                };
                let dur = match number_at(tokens, i + 2) {
                    Some(v) => v,
                    None => {
                        return Err(make_err(tokens, i + 2, Expected::Number));
                    },
                };
                if !class_at(tokens, i + 3, TokenClass::Semicolon) {
                    return Err(make_err(tokens, i + 3, Expected::Semicolon));
                }
                let idx = num::to_index(ind);
                proof {
                    lemma_view_insts_push(out@, Instruction::Grow(idx, dur));
                }
                out.push(Instruction::Grow(idx, dur));
                i += 4;
            },
            TokenKind::Wait => {
                let dur = match number_at(tokens, i + 1) {
                    Some(v) => v,
                    None => {
                        return Err(make_err(tokens, i + 1, Expected::Number));
                    },
                };
                if !class_at(tokens, i + 2, TokenClass::Semicolon) {
                    return Err(make_err(tokens, i + 2, Expected::Semicolon));
                }
                proof {
                    lemma_view_insts_push(out@, Instruction::Wait(dur));
                }
                out.push(Instruction::Wait(dur));
                i += 3;
            },
            TokenKind::Fade => {
                let ind = match number_at(tokens, i + 1) {
                    Some(v) => v,
                    None => {
                        return Err(make_err(tokens, i + 1, Expected::Number));
                    },
                };
                if !class_at(tokens, i + 2, TokenClass::ColorDef) {
                    return Err(make_err(tokens, i + 2, Expected::ColorDef));
                }
                if !class_at(tokens, i + 3, TokenClass::Oparen) {
                    return Err(make_err(tokens, i + 3, Expected::Oparen));
                }
                let cr = match number_at(tokens, i + 4) {
                    Some(v) => v,
                    None => {
                        return Err(make_err(tokens, i + 4, Expected::Number));
                    },
                };
                let cg = match number_at(tokens, i + 5) {
                    Some(v) => v,
                    None => {
                        return Err(make_err(tokens, i + 5, Expected::Number));
                    },
                };
                let cb = match number_at(tokens, i + 6) {
                    Some(v) => v,
                    None => {
                        return Err(make_err(tokens, i + 6, Expected::Number));
                    },
                };
                let ca = match number_at(tokens, i + 7) {
                    Some(v) => v,
                    None => {
                        return Err(make_err(tokens, i + 7, Expected::Number));
                    },
                };
                if !class_at(tokens, i + 8, TokenClass::Cparen) {
                    return Err(make_err(tokens, i + 8, Expected::Cparen));
                }
                let dur = match number_at(tokens, i + 9) {
                    Some(v) => v,
                    None => {
                        return Err(make_err(tokens, i + 9, Expected::Number));
                    },
                };
                if !class_at(tokens, i + 10, TokenClass::Semicolon) {
                    return Err(make_err(tokens, i + 10, Expected::Semicolon));
                }
                let idx = num::to_index(ind);
                let color = Color {
                    r: num::to_channel(cr),
                    g: num::to_channel(cg),
                    b: num::to_channel(cb),
                    a: num::to_channel(ca),
                };
                proof {
                    lemma_view_insts_push(out@, Instruction::Fade(idx, color, dur));
                }
                out.push(Instruction::Fade(idx, color, dur));
                i += 11;
            },
            TokenKind::Move => {
                let ind = match number_at(tokens, i + 1) {
                    Some(v) => v,
                    None => {
                        return Err(make_err(tokens, i + 1, Expected::Number));
                    },
                };
                if !class_at(tokens, i + 2, TokenClass::Vector2Def) {
                    return Err(make_err(tokens, i + 2, Expected::Vector2Def));
                }
                if !class_at(tokens, i + 3, TokenClass::Oparen) {
                    return Err(make_err(tokens, i + 3, Expected::Oparen));
                }
                let vx = match number_at(tokens, i + 4) {
                    Some(v) => v,
                    None => {
                        return Err(make_err(tokens, i + 4, Expected::Number));
                    },
                };
                let vy = match number_at(tokens, i + 5) {
                    Some(v) => v,
                    None => {
                        return Err(make_err(tokens, i + 5, Expected::Number));
                    },
                };
                if !class_at(tokens, i + 6, TokenClass::Cparen) {
                    return Err(make_err(tokens, i + 6, Expected::Cparen));
                }
                let dur = match number_at(tokens, i + 7) {
                    Some(v) => v,
                    None => {
                        return Err(make_err(tokens, i + 7, Expected::Number));
                    },
                };
                if !class_at(tokens, i + 8, TokenClass::Semicolon) {
                    return Err(make_err(tokens, i + 8, Expected::Semicolon));
                }
                let idx = num::to_index(ind);
                proof {
                    lemma_view_insts_push(
                        out@,
                        Instruction::Move(idx, Vec2::Relative(vx, vy), dur),
                    );
                }
                out.push(Instruction::Move(idx, Vec2::Relative(vx, vy), dur));
                i += 9;
            },
            TokenKind::On => {
                let ind = match number_at(tokens, i + 1) {
                    Some(v) => v,
                    None => {
                        return Err(make_err(tokens, i + 1, Expected::Number));
                    },
                };
                if !class_at(tokens, i + 2, TokenClass::Semicolon) {
                    return Err(make_err(tokens, i + 2, Expected::Semicolon));
                }
                let idx = num::to_index(ind);
                proof {
                    lemma_view_insts_push(out@, Instruction::Enable(idx));
                }
                out.push(Instruction::Enable(idx));
                i += 3;
            },
            TokenKind::Off => {
                let ind = match number_at(tokens, i + 1) {
                    Some(v) => v,
                    None => {
                        return Err(make_err(tokens, i + 1, Expected::Number));
                    },
                };
                if !class_at(tokens, i + 2, TokenClass::Semicolon) {
                    return Err(make_err(tokens, i + 2, Expected::Semicolon));
                }
                let idx = num::to_index(ind);
                proof {
                    lemma_view_insts_push(out@, Instruction::Disable(idx));
                }
                out.push(Instruction::Disable(idx));
                i += 3;
            },
            _ => {
                return Err(make_err(tokens, i, Expected::LoopStmt));
            },
        }
    }
}

/// Parses a whole token sequence into the setup and loop instruction
/// sequences, or reports the first structural mismatch.
pub fn parse(tokens: &Vec<Token>) -> (r: Result<(Vec<Instruction>, Vec<Instruction>), ParseError>)
    requires
        tokens_bounded(view_tokens(tokens@)),
    ensures
        ({
            let tv = view_tokens(tokens@);
            match r {
                Ok(p) => spec_parse(tv) == Ok::<_, ParseError>(
                    (view_insts(p.0@), view_insts(p.1@)),
                ),
                Err(e) => spec_parse(tv) == Err::<(Seq<InstructionV>, Seq<InstructionV>), _>(e),
            }
        }),
{
    let ghost tv = view_tokens(tokens@);
    let n = tokens.len();
    let mut setup: Vec<Instruction> = Vec::new();
    let mut loops: Vec<Instruction> = Vec::new();
    let mut seen_init = false;
    let mut seen_loop = false;
    let mut i: usize = 0;
    proof {
        assert(view_insts(setup@) =~= Seq::<InstructionV>::empty());
        assert(view_insts(loops@) =~= Seq::<InstructionV>::empty());
    }
    while i < n
        invariant
            i <= n,
            n == tokens@.len(),
            tv == view_tokens(tokens@),
            tokens_bounded(tv),
            spec_parse(tv) == parse_from(
                tv,
                i as int,
                seen_init,
                seen_loop,
                view_insts(setup@),
                view_insts(loops@),
            ),
        decreases n - i,
    {
        let t = &tokens[i];
        proof {
            assert(tv[i as int] == tokens@[i as int]@);
        }
        match &t.kind {
            TokenKind::Init => {
                if seen_init {
                    return Err(make_err(tokens, i, Expected::UniqueBlock));
                }
                if !class_at(tokens, i + 1, TokenClass::Ocurly) {
                    return Err(make_err(tokens, i + 1, Expected::Ocurly));
                }
                let ghost accb = view_insts(setup@);
                match parse_init_block(tokens, i + 2, setup) {
                    Ok(p) => {
                        proof {
                            lemma_stmts_bounds(tv, i as int + 2, accb);
                        }
                        setup = p.0;
                        i = p.1;
                        seen_init = true;
                    },
                    Err(e) => {
                        return Err(e);
                    },
                }
            },
            TokenKind::Loop => {
                if seen_loop {
                    return Err(make_err(tokens, i, Expected::UniqueBlock));
                }
                if !class_at(tokens, i + 1, TokenClass::Ocurly) {
                    return Err(make_err(tokens, i + 1, Expected::Ocurly));
                }
                let ghost accb = view_insts(loops@);
                match parse_loop_block(tokens, i + 2, loops) {
                    Ok(p) => {
                        proof {
                            lemma_stmts_bounds(tv, i as int + 2, accb);
                        }
                        loops = p.0;
                        i = p.1;
                        seen_loop = true;
                    },
                    Err(e) => {
                        return Err(e);
                    },
                }
            },
            _ => {
                return Err(make_err(tokens, i, Expected::Block));
            },
        }
    }
    Ok((setup, loops))
}

} // verus!
