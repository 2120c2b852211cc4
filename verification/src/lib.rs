//! A compiler and playback interpreter for "acode", a small textual
//! animation-description language.
//!
//! Source text is tokenized and parsed into two instruction sequences: a
//! one-shot setup sequence that creates the drawable objects, and a loop
//! sequence that the playback interpreter consumes frame by frame, driving
//! object positions, sizes and colors by time-based interpolation.
//!
//! All times and coordinates are fixed-point scalars: an `i64` counting
//! thousandths of a unit (see [`num`]).

use vstd::prelude::*;
use vstd::string::{StringSliceAdditionalSpecFns, StrSliceExecFns};

pub mod color;
pub mod ease;
pub mod engine;
pub mod geom;
pub mod host;
pub mod lexer;
pub mod num;
pub mod parser;

use crate::engine::{build_objects, check_loop, sum_pos, Interpreter};
use crate::ease::Curve;
use crate::lexer::{spec_lex, LexError};
use crate::num::NUM_MAX;
use crate::parser::{
    insts_wf, view_insts, Instruction, InstructionV, ParseError, tokens_bounded,
};

verus! {

/// Why a source text was rejected: in the lexer, or in the parser.  Either
/// way the error carries the 1-based line it was found on.
#[derive(Clone, Copy, Debug, PartialEq, Eq, Structural)]
pub enum CompileError {
    Lex(LexError),
    Parse(ParseError),
}

/// The 1-based source line a compile error reports.
pub open spec fn spec_error_line(e: CompileError) -> usize {
    match e {
        CompileError::Lex(le) => le.line,
        CompileError::Parse(pe) => pe.line,
    }
}

impl CompileError {
    /// The 1-based source line the failure was found on.
    pub fn line(&self) -> (r: usize)
        ensures
            r == spec_error_line(*self),
    {
        match self {
            CompileError::Lex(le) => le.line,
            CompileError::Parse(pe) => pe.line,
        }
    }
}

/// The two instruction sequences of a source text: its tokens parsed into
/// the setup and loop sequences, or the first error on the way.
pub open spec fn spec_compile(src: Seq<u8>) -> Result<
    (Seq<InstructionV>, Seq<InstructionV>),
    CompileError,
> {
    match spec_lex(src) {
        Err(e) => Err(CompileError::Lex(e)),
        Ok(ts) => match parser::spec_parse(ts) {
            Err(e) => Err(CompileError::Parse(e)),
            Ok(p) => Ok(p),
        },
    }
}

/// Compiles a source text into the setup and loop instruction sequences,
/// or reports the first lexical or structural error with its line.
pub fn compile(source: &Vec<u8>) -> (r: Result<
    (Vec<Instruction>, Vec<Instruction>),
    CompileError,
>)
    ensures
        r matches Ok(p) ==> spec_compile(source@) == Ok::<_, CompileError>(
            (view_insts(p.0@), view_insts(p.1@)),
        ),
        r matches Err(e) ==> spec_compile(source@) == Err::<
            (Seq<InstructionV>, Seq<InstructionV>),
            _,
        >(e),
{
    let toks = match lexer::tokenize(source) {
        Ok(t) => t,
        Err(e) => {
            return Err(CompileError::Lex(e));
        },
    };
    proof {
        lexer::lemma_lex_bounded(source@, 0, 1);
        assert(tokens_bounded(lexer::view_tokens(toks@)));
    }
    match parser::parse(&toks) {
        Ok(p) => Ok(p),
        Err(e) => Err(CompileError::Parse(e)),
    }
}

/// Every instruction a successful compilation emits is well-formed: its
/// scalars are in the fixed-point range and its move targets relative.
pub proof fn lemma_compile_wf(src: Seq<u8>)
    ensures
        spec_compile(src) matches Ok(p) ==> insts_wf(p.0) && insts_wf(p.1),
{
    match spec_lex(src) {
        Ok(ts) => {
            lexer::lemma_lex_bounded(src, 0, 1);
            parser::lemma_parse_wf(ts);
        },
        Err(_) => {},
    }
}

/// The built-in sample program: two objects, then one pass through each of
/// the six loop actions.
pub open spec fn sample_source() -> Seq<u8> {
    "INIT { RECT; TEXT \"Hi\"; } LOOP { GROW 0 1.5; WAIT 1.0; FADE 1 c(230,41,55,255) 1.5; MOVE 0 v2(0.3,0.8) 2.0; ON 1; OFF 0; }".spec_bytes()
}

/// The built-in sample program, as bytes.
pub fn sample_source_vec() -> (r: Vec<u8>)
    ensures
        r@ == sample_source(),
{
    "INIT { RECT; TEXT \"Hi\"; } LOOP { GROW 0 1.5; WAIT 1.0; FADE 1 c(230,41,55,255) 1.5; MOVE 0 v2(0.3,0.8) 2.0; ON 1; OFF 0; }".as_bytes_vec()
}

/// Compiles the built-in sample program, as a quick self-check of the
/// whole lexer-parser pipeline; reports whether compilation succeeded.
pub fn acode_test() -> (r: bool)
    ensures
        r == (spec_compile(sample_source()) is Ok),
{
    let src = sample_source_vec();
    compile(&src).is_ok()
}

/// Whether a compiled program can be built and run to completion: it
/// compiles, its setup sequence builds an object table, its loop sequence
/// checks against that table, and its total timed length fits the
/// fixed-point range.
pub open spec fn spec_demo_runs(src: Seq<u8>) -> bool {
    match spec_compile(src) {
        Err(_) => false,
        Ok(p) => match build_objects(p.0) {
            Err(_) => false,
            Ok(objs) => check_loop(p.1, objs.len() as int) is Ok && sum_pos(p.1, 0) <= NUM_MAX,
        },
    }
}

/// Compiles the built-in sample program, builds the interpreter, and plays
/// it through in one jump of its whole duration; reports whether playback
/// completed (which it does exactly when everything builds).
pub fn engine_expr() -> (r: bool)
    ensures
        r == spec_demo_runs(sample_source()),
{
    let src = sample_source_vec();
    let compiled = match compile(&src) {
        Ok(p) => p,
        Err(_) => {
            return false;
        },
    };
    proof {
        lemma_compile_wf(sample_source());
    }
    let (setup, loops) = compiled;
    let ghost lv = view_insts(loops@);
    let n = loops.len();
    let mut total: i64 = 0;
    let mut i: usize = n;
    while i > 0
        invariant
            i <= n,
            n == loops@.len(),
            lv == view_insts(loops@),
            insts_wf(lv),
            spec_compile(sample_source()) == Ok::<(Seq<InstructionV>, Seq<InstructionV>), CompileError>(
                (view_insts(setup@), lv),
            ),
            total == sum_pos(lv, i as int),
            0 <= total <= NUM_MAX,
        decreases i,
    {
        i -= 1;
        proof {
            assert(lv[i as int] == loops@[i as int]@);
        }
        let d = match &loops[i] {
            Instruction::Grow(_, d0) => *d0,
            Instruction::Wait(d0) => *d0,
            Instruction::Fade(_, _, d0) => *d0,
            Instruction::Move(_, _, d0) => *d0,
            _ => 0,
        };
        let p = if d > 0 {
            d
        } else {
            0
        };
        if p > NUM_MAX - total {
            proof {
                engine::lemma_sum_pos_suffix(lv, 0, i as int);
            }
            return false;
        }
        total = total + p;
    }
    match Interpreter::new(setup, loops, Curve::Smooth) {
        Ok(mut it) => {
            let ghost s0 = it@;
            proof {
                assert(engine::time_left(s0) == sum_pos(lv, 0));
                engine::lemma_advance_completes(s0, total);
                engine::lemma_advance_props(s0, total);
            }
            it.advance(total);
            it.is_completed()
        },
        Err(_) => false,
    }
}

} // verus!
