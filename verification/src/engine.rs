//! The playback interpreter: a per-frame state machine over the loop
//! instruction sequence.
//!
//! The interpreter owns the object table, built once from the setup
//! sequence, and a cursor (instruction index, elapsed time within it, and a
//! cached interpolation-bounds snapshot).  Each `advance(dt)` feeds elapsed
//! wall-clock time forward: the current instruction blends its target
//! object's field between the snapshot bounds; an instruction whose
//! duration is spent hands the leftover time to the next one.  Playback is
//! forward-only; once the cursor passes the end, nothing changes any more.

use vstd::prelude::*;
use crate::color::{Color, spec_white, spec_blend_color};
use crate::ease::{Curve, spec_ease, lemma_ease_range};
use crate::geom::{Vec2, same_tag, spec_blend_vec2};
use crate::num::{self, NUM_MAX, in_range, spec_blend, lemma_blend_range};
use crate::parser::{Instruction, InstructionV, ObjInfo, ObjInfoV, view_insts, insts_wf, wf_inst};

verus! {

/// The kind-specific part of a drawable object.
#[derive(Clone, Debug, PartialEq)]
pub enum ObjectKind {
    /// A rectangle with its size.
    Rect { size: Vec2 },
    /// A text with its content, font size (fixed-point thousandths) and
    /// measured bounding size (as the host reports it).
    Text { content: Vec<u8>, font_size: i64, bounds: Vec2 },
}

/// A drawable object: a kind, a position, a color, and whether it is shown.
#[derive(Clone, Debug, PartialEq)]
pub struct Object {
    pub kind: ObjectKind,
    pub position: Vec2,
    pub color: Color,
    pub enabled: bool,
}

/// The mathematical image of an [`ObjectKind`].
pub enum ObjectKindV {
    Rect { size: Vec2 },
    Text { content: Seq<u8>, font_size: i64, bounds: Vec2 },
}

/// The mathematical image of an [`Object`].
pub struct ObjectV {
    pub kind: ObjectKindV,
    pub position: Vec2,
    pub color: Color,
    pub enabled: bool,
}

impl View for ObjectKind {
    type V = ObjectKindV;

    open spec fn view(&self) -> ObjectKindV {
        match self {
            ObjectKind::Rect { size } => ObjectKindV::Rect { size: *size },
            ObjectKind::Text { content, font_size, bounds } => ObjectKindV::Text {
                content: content@,
                font_size: *font_size,
                bounds: *bounds,
            },
        }
    }
}

impl View for Object {
    type V = ObjectV;

    open spec fn view(&self) -> ObjectV {
        ObjectV {
            kind: self.kind@,
            position: self.position,
            color: self.color,
            enabled: self.enabled,
        }
    }
}

/// The views of a sequence of objects, element-wise.
pub open spec fn view_objects(os: Seq<Object>) -> Seq<ObjectV> {
    os.map_values(|o: Object| o@)
}

/// Why an interpreter could not be built.
#[derive(Clone, Copy, Debug, PartialEq, Eq, Structural)]
pub enum BuildError {
    /// A non-create instruction stood in the setup sequence, at this rank.
    SetupError { at: usize },
    /// A create instruction stood in the loop sequence, at this rank.
    UnsupportedAction { at: usize },
    /// A loop instruction referenced an object index at or past the count
    /// of created objects.
    IndexError { at: usize, index: usize, count: usize },
}

/// The cached interpolation bounds of the instruction being played: the
/// snapshot (start, end) pair taken on its first tick.
#[derive(Clone, Copy, Debug, PartialEq, Eq, Structural)]
pub enum InterpBounds {
    Scalar(i64, i64),
    Vec2(Vec2, Vec2),
    Clr(Color, Color),
}

/// The object a freshly parsed `Create` instruction makes: origin position,
/// opaque white, hidden; rectangles a relative unit square, texts a default
/// font size with empty measured bounds.
pub open spec fn make_object(info: ObjInfoV) -> ObjectV {
    match info {
        ObjInfoV::Rect => ObjectV {
            kind: ObjectKindV::Rect { size: Vec2::Relative(1000, 1000) },
            position: Vec2::Relative(0, 0),
            color: spec_white(),
            enabled: false,
        },
        ObjInfoV::Text(content) => ObjectV {
            kind: ObjectKindV::Text {
                content,
                font_size: 30000,
                bounds: Vec2::Relative(0, 0),
            },
            position: Vec2::Relative(0, 0),
            color: spec_white(),
            enabled: false,
        },
    }
}

/// The object table the setup sequence from rank `i` on builds, appended to
/// `acc`: only `Create` instructions are legal there.
pub open spec fn build_from(setup: Seq<InstructionV>, i: int, acc: Seq<ObjectV>) -> Result<
    Seq<ObjectV>,
    BuildError,
>
    recommends
        0 <= i,
    decreases setup.len() - i when 0 <= i
{
    if i >= setup.len() {
        Ok(acc)
    } else {
        match setup[i] {
            InstructionV::Create(info) => build_from(setup, i + 1, acc.push(make_object(info))),
            _ => Err(BuildError::SetupError { at: i as usize }),
        }
    }
}

/// The object table a setup sequence builds.
pub open spec fn build_objects(setup: Seq<InstructionV>) -> Result<Seq<ObjectV>, BuildError> {
    build_from(setup, 0, Seq::empty())
}

/// Whether a loop instruction may run against `count` created objects: no
/// creation, and every referenced index within the table.
pub open spec fn inst_ok(i: InstructionV, count: int) -> bool {
    match i {
        InstructionV::Create(_) => false,
        InstructionV::Wait(_) => true,
        InstructionV::Grow(k, _) => (k as int) < count,
        InstructionV::Fade(k, _, _) => (k as int) < count,
        InstructionV::Move(k, _, _) => (k as int) < count,
        InstructionV::Enable(k) => (k as int) < count,
        InstructionV::Disable(k) => (k as int) < count,
    }
}

/// Whether every loop instruction may run against `count` objects.
pub open spec fn loop_ok(insts: Seq<InstructionV>, count: int) -> bool {
    forall|j: int| 0 <= j < insts.len() ==> inst_ok(#[trigger] insts[j], count)
}

/// The first reason the loop sequence from rank `i` on cannot run against
/// `count` objects, if any.
pub open spec fn check_from(insts: Seq<InstructionV>, i: int, count: int) -> Result<
    (),
    BuildError,
>
    recommends
        0 <= i,
    decreases insts.len() - i when 0 <= i
{
    if i >= insts.len() {
        Ok(())
    } else {
        match insts[i] {
            InstructionV::Create(_) => Err(BuildError::UnsupportedAction { at: i as usize }),
            InstructionV::Wait(_) => check_from(insts, i + 1, count),
            InstructionV::Grow(k, _) => if (k as int) >= count {
                Err(BuildError::IndexError { at: i as usize, index: k, count: count as usize })
            } else {
                check_from(insts, i + 1, count)
            },
            InstructionV::Fade(k, _, _) => if (k as int) >= count {
                Err(BuildError::IndexError { at: i as usize, index: k, count: count as usize })
            } else {
                check_from(insts, i + 1, count)
            },
            InstructionV::Move(k, _, _) => if (k as int) >= count {
                Err(BuildError::IndexError { at: i as usize, index: k, count: count as usize })
            } else {
                check_from(insts, i + 1, count)
            },
            InstructionV::Enable(k) => if (k as int) >= count {
                Err(BuildError::IndexError { at: i as usize, index: k, count: count as usize })
            } else {
                check_from(insts, i + 1, count)
            },
            InstructionV::Disable(k) => if (k as int) >= count {
                Err(BuildError::IndexError { at: i as usize, index: k, count: count as usize })
            } else {
                check_from(insts, i + 1, count)
            },
        }
    }
}

/// The whole loop sequence checked against `count` objects.
pub open spec fn check_loop(insts: Seq<InstructionV>, count: int) -> Result<(), BuildError> {
    check_from(insts, 0, count)
}

/// A clean check means every instruction from `i` on may run.
pub proof fn lemma_check_all(insts: Seq<InstructionV>, i: int, count: int)
    requires
        0 <= i,
        check_from(insts, i, count) is Ok,
    ensures
        forall|j: int| i <= j < insts.len() ==> inst_ok(#[trigger] insts[j], count),
    decreases insts.len() - i,
{
    if i < insts.len() {
        lemma_check_all(insts, i + 1, count);
    }
}

/// The whole mathematical state of an interpreter.
#[verifier::ext_equal]
pub struct StateV {
    pub objects: Seq<ObjectV>,
    pub insts: Seq<InstructionV>,
    pub cursor: int,
    pub elapsed: i64,
    pub bounds: Option<InterpBounds>,
    pub paused: bool,
    pub curve: Curve,
}

/// The duration of a timed instruction; zero for the untimed ones.
pub open spec fn inst_duration(i: InstructionV) -> i64 {
    match i {
        InstructionV::Grow(_, d) => d,
        InstructionV::Wait(d) => d,
        InstructionV::Fade(_, _, d) => d,
        InstructionV::Move(_, _, d) => d,
        _ => 0,
    }
}

/// The object index an instruction acts on; zero for `Wait` and `Create`.
pub open spec fn inst_target(i: InstructionV) -> int {
    match i {
        InstructionV::Grow(k, _) => k as int,
        InstructionV::Fade(k, _, _) => k as int,
        InstructionV::Move(k, _, _) => k as int,
        InstructionV::Enable(k) => k as int,
        InstructionV::Disable(k) => k as int,
        _ => 0,
    }
}

/// A well-formed object: everything relative and within the fixed-point
/// range, with a non-negative font size.
pub open spec fn obj_wf(o: ObjectV) -> bool {
    &&& o.position.is_relative()
    &&& o.position.bounded()
    &&& match o.kind {
        ObjectKindV::Rect { size } => size.is_relative() && size.bounded(),
        ObjectKindV::Text { font_size, bounds, .. } => 0 <= font_size <= NUM_MAX
            && bounds.is_relative() && bounds.bounded(),
    }
}

/// Whether every object of a table is well-formed.
pub open spec fn objs_wf(os: Seq<ObjectV>) -> bool {
    forall|j: int| 0 <= j < os.len() ==> obj_wf(#[trigger] os[j])
}

/// The snapshot bounds the instruction at the cursor takes on its first
/// tick: a rectangle grows from nothing to the unit square, a text's font
/// from nothing to its current size; a move runs from the current position
/// to the target; a fade from the current color to the target.
pub open spec fn snapshot_of(objs: Seq<ObjectV>, inst: InstructionV) -> InterpBounds {
    match inst {
        InstructionV::Grow(k, _) => match objs[k as int].kind {
            ObjectKindV::Rect { .. } => InterpBounds::Vec2(
                Vec2::Relative(0, 0),
                Vec2::Relative(1000, 1000),
            ),
            ObjectKindV::Text { font_size, .. } => InterpBounds::Scalar(0, font_size),
        },
        InstructionV::Move(k, target, _) => InterpBounds::Vec2(objs[k as int].position, target),
        InstructionV::Fade(k, target, _) => InterpBounds::Clr(objs[k as int].color, target),
        _ => InterpBounds::Scalar(0, 0),
    }
}

/// The table with object `k`'s enabled flag set.
pub open spec fn set_enabled(objs: Seq<ObjectV>, k: int, on: bool) -> Seq<ObjectV> {
    objs.update(k, ObjectV { enabled: on, ..objs[k] })
}

/// The table after blending the instruction's field on its target by `f`
/// thousandths between the bounds `b`; `Grow` and `Fade` also show the
/// target.
pub open spec fn apply_timed(
    objs: Seq<ObjectV>,
    inst: InstructionV,
    b: InterpBounds,
    f: i64,
) -> Seq<ObjectV> {
    match inst {
        InstructionV::Grow(k0, _) => {
            let k = k0 as int;
            let o = objs[k];
            let o2 = match (o.kind, b) {
                (ObjectKindV::Rect { .. }, InterpBounds::Vec2(lo, hi)) => ObjectV {
                    kind: ObjectKindV::Rect { size: spec_blend_vec2(lo, hi, f) },
                    enabled: true,
                    ..o
                },
                (
                    ObjectKindV::Text { content, bounds, .. },
                    InterpBounds::Scalar(lo, hi),
                ) => ObjectV {
                    kind: ObjectKindV::Text {
                        content,
                        font_size: spec_blend(lo, hi, f) as i64,
                        bounds,
                    },
                    enabled: true,
                    ..o
                },
                _ => ObjectV { enabled: true, ..o },
            };
            objs.update(k, o2)
        },
        InstructionV::Move(k0, _, _) => {
            let k = k0 as int;
            let o = objs[k];
            match b {
                InterpBounds::Vec2(lo, hi) => objs.update(
                    k,
                    ObjectV { position: spec_blend_vec2(lo, hi, f), ..o },
                ),
                _ => objs,
            }
        },
        InstructionV::Fade(k0, _, _) => {
            let k = k0 as int;
            let o = objs[k];
            match b {
                InterpBounds::Clr(lo, hi) => objs.update(
                    k,
                    ObjectV { color: spec_blend_color(lo, hi, f), enabled: true, ..o },
                ),
                _ => objs.update(k, ObjectV { enabled: true, ..o }),
            }
        },
        _ => objs,
    }
}

/// Whether `b` is a sound bounds pair for `inst` against the table.
pub open spec fn bounds_ok_for(objs: Seq<ObjectV>, inst: InstructionV, b: InterpBounds) -> bool {
    match inst {
        InstructionV::Grow(k, _) => (match objs[k as int].kind {
            ObjectKindV::Rect { .. } => b matches InterpBounds::Vec2(lo, hi) && lo
                == Vec2::Relative(0, 0) && hi == Vec2::Relative(1000, 1000),
            ObjectKindV::Text { .. } => b matches InterpBounds::Scalar(lo, hi) && lo == 0 && 0
                <= hi <= NUM_MAX,
        }),
        InstructionV::Move(k, target, _) => b matches InterpBounds::Vec2(lo, hi)
            && lo.is_relative() && lo.bounded() && hi == target,
        InstructionV::Fade(k, target, _) => b matches InterpBounds::Clr(lo, hi) && hi == target,
        _ => false,
    }
}

/// Whether a cached bounds snapshot agrees with the instruction at the
/// cursor and its target object.
pub open spec fn bounds_wf(s: StateV) -> bool {
    match s.bounds {
        None => true,
        Some(b) => 0 <= s.cursor < s.insts.len() && bounds_ok_for(
            s.objects,
            s.insts[s.cursor],
            b,
        ),
    }
}

/// A well-formed interpreter state: sound object table, runnable loop
/// sequence, cursor within bounds, elapsed time strictly inside the
/// current instruction, and a sound snapshot.
pub open spec fn state_wf(s: StateV) -> bool {
    &&& objs_wf(s.objects)
    &&& insts_wf(s.insts)
    &&& loop_ok(s.insts, s.objects.len() as int)
    &&& 0 <= s.cursor <= s.insts.len()
    &&& 0 <= s.elapsed < NUM_MAX
    &&& (s.cursor < s.insts.len() ==> s.elapsed == 0 || s.elapsed < inst_duration(
        s.insts[s.cursor],
    ))
    &&& bounds_wf(s)
}

/// The leftover frame time once an instruction's duration is spent: a
/// non-positive duration costs nothing.
pub open spec fn carry(t: int, d: i64) -> i64 {
    if d > 0 {
        (t - d) as i64
    } else {
        t as i64
    }
}

/// One instruction's worth of an `advance(dt)` call: the state after
/// feeding `dt` into the instruction at the cursor, the leftover time, and
/// whether the instruction finished (so the leftover flows onward).
pub open spec fn spec_step(s: StateV, dt: i64) -> (StateV, i64, bool)
    recommends
        0 <= s.cursor < s.insts.len(),
        0 <= dt,
{
    let inst = s.insts[s.cursor];
    match inst {
        InstructionV::Enable(k) => (
            (StateV {
                objects: set_enabled(s.objects, k as int, true),
                cursor: s.cursor + 1,
                elapsed: 0,
                bounds: None,
                ..s
            }),
            dt,
            true,
        ),
        InstructionV::Disable(k) => (
            (StateV {
                objects: set_enabled(s.objects, k as int, false),
                cursor: s.cursor + 1,
                elapsed: 0,
                bounds: None,
                ..s
            }),
            dt,
            true,
        ),
        InstructionV::Create(_) => (s, dt, false),
        InstructionV::Wait(d) => {
            let t = s.elapsed + dt;
            if t >= d {
                ((StateV { cursor: s.cursor + 1, elapsed: 0, bounds: None, ..s }), carry(t, d), true)
            } else {
                ((StateV { elapsed: t as i64, ..s }), 0, false)
            }
        },
        _ => {
            let d = inst_duration(inst);
            let b = match s.bounds {
                Some(bb) => bb,
                None => snapshot_of(s.objects, inst),
            };
            let t = s.elapsed + dt;
            let f = spec_ease(s.curve, t as i64, d) as i64;
            let objs2 = apply_timed(s.objects, inst, b, f);
            if t >= d {
                (
                    (StateV {
                        objects: objs2,
                        cursor: s.cursor + 1,
                        elapsed: 0,
                        bounds: None,
                        ..s
                    }),
                    carry(t, d),
                    true,
                )
            } else {
                ((StateV { objects: objs2, elapsed: t as i64, bounds: Some(b), ..s }), 0, false)
            }
        },
    }
}

/// The state after feeding `dt` thousandths of a second of wall-clock time
/// through the loop sequence: instructions are played in order, each
/// handing its leftover time to the next; a paused or exhausted
/// interpreter does not change.
pub open spec fn spec_advance(s: StateV, dt: i64) -> StateV
    recommends
        state_wf(s),
        0 <= dt <= NUM_MAX,
    decreases s.insts.len() - s.cursor when 0 <= s.cursor
{
    if s.paused || s.cursor < 0 || s.cursor >= s.insts.len() {
        s
    } else {
        let st = spec_step(s, dt);
        if st.2 {
            spec_advance(st.0, st.1)
        } else {
            st.0
        }
    }
}

/// One step preserves well-formedness, the instruction list and the object
/// count, keeps the leftover within range, and moves the cursor forward
/// exactly when the instruction finished.
pub proof fn lemma_step_wf(s: StateV, dt: i64)
    requires
        state_wf(s),
        !s.paused,
        0 <= s.cursor < s.insts.len(),
        0 <= dt <= NUM_MAX,
        s.insts[s.cursor] !is Create,
    ensures
        ({
            let st = spec_step(s, dt);
            &&& state_wf(st.0)
            &&& 0 <= st.1 <= NUM_MAX
            &&& st.0.insts == s.insts
            &&& st.0.paused == s.paused
            &&& st.0.curve == s.curve
            &&& st.0.objects.len() == s.objects.len()
            &&& (st.2 ==> st.0.cursor == s.cursor + 1 && st.0.elapsed == 0 && st.0.bounds is None)
            &&& (!st.2 ==> st.0.cursor == s.cursor)
        }),
{
    let inst = s.insts[s.cursor];
    let (s2, dt2, go) = spec_step(s, dt);
    assert(inst_ok(inst, s.objects.len() as int));
    match inst {
        InstructionV::Enable(k) => {
            lemma_objs_wf_update_flag(s.objects, k as int, true);
        },
        InstructionV::Disable(k) => {
            lemma_objs_wf_update_flag(s.objects, k as int, false);
        },
        InstructionV::Wait(d) => {
        },
        InstructionV::Create(_) => {
        },
        _ => {
            let d = inst_duration(inst);
            let b = match s.bounds {
                Some(bb) => bb,
                None => snapshot_of(s.objects, inst),
            };
            let t = s.elapsed + dt;
            let f = spec_ease(s.curve, t as i64, d) as i64;
            lemma_ease_range(s.curve, (t as i64), d);
            lemma_apply_timed_wf(s.objects, inst, b, f);
            assert(bounds_wf(s2)) by {
                if !go {
                    let k = inst_target(inst);
                    assert(s2.objects[k] == apply_timed(s.objects, inst, b, f)[k]);
                    assert(forall|j: int|
                        0 <= j < s.objects.len() && j != k ==> apply_timed(s.objects, inst, b, f)[j]
                            == s.objects[j]);
                }
            }
        },
    }
}

/// Setting an enabled flag keeps the table well-formed.
proof fn lemma_objs_wf_update_flag(objs: Seq<ObjectV>, k: int, on: bool)
    requires
        objs_wf(objs),
        0 <= k < objs.len(),
    ensures
        objs_wf(set_enabled(objs, k, on)),
        set_enabled(objs, k, on).len() == objs.len(),
{
    let objs2 = set_enabled(objs, k, on);
    assert forall|j: int| 0 <= j < objs2.len() implies obj_wf(#[trigger] objs2[j]) by {
        if j != k {
            assert(objs2[j] == objs[j]);
        }
    }
}

/// A timed application keeps the table well-formed and each object's kind,
/// and touches only the target.
proof fn lemma_apply_timed_wf(objs: Seq<ObjectV>, inst: InstructionV, b: InterpBounds, f: i64)
    requires
        objs_wf(objs),
        wf_inst(inst),
        inst_ok(inst, objs.len() as int),
        inst matches InstructionV::Grow(..) || inst matches InstructionV::Move(..) || inst matches
            InstructionV::Fade(..),
        bounds_ok_for(objs, inst, b),
        0 <= f <= 1000,
    ensures
        ({
            let objs2 = apply_timed(objs, inst, b, f);
            &&& objs_wf(objs2)
            &&& objs2.len() == objs.len()
            &&& (forall|j: int|
                0 <= j < objs.len() && j != inst_target(inst) ==> objs2[j] == #[trigger] objs[j])
            &&& (match objs[inst_target(inst)].kind {
                ObjectKindV::Rect { .. } => objs2[inst_target(inst)].kind is Rect,
                ObjectKindV::Text { .. } => objs2[inst_target(inst)].kind is Text,
            })
        }),
{
    let objs2 = apply_timed(objs, inst, b, f);
    let k = inst_target(inst);
    assert(obj_wf(objs2[k])) by {
        match inst {
            InstructionV::Grow(_, _) => {
                match (objs[k].kind, b) {
                    (ObjectKindV::Rect { .. }, InterpBounds::Vec2(lo, hi)) => {
                        lemma_blend_range(lo.x(), hi.x(), f);
                        lemma_blend_range(lo.y(), hi.y(), f);
                    },
                    (ObjectKindV::Text { .. }, InterpBounds::Scalar(lo, hi)) => {
                        lemma_blend_range(lo, hi, f);
                    },
                    _ => {},
                }
            },
            InstructionV::Move(_, _, _) => {
                match b {
                    InterpBounds::Vec2(lo, hi) => {
                        lemma_blend_range(lo.x(), hi.x(), f);
                        lemma_blend_range(lo.y(), hi.y(), f);
                    },
                    _ => {},
                }
            },
            _ => {},
        }
    }
    assert forall|j: int| 0 <= j < objs2.len() implies obj_wf(#[trigger] objs2[j]) by {
        if j != k {
            assert(objs2[j] == objs[j]);
        }
    }
}

/// Pushing an object commutes with taking views.
proof fn lemma_view_objects_push(os: Seq<Object>, o: Object)
    ensures
        view_objects(os.push(o)) =~= view_objects(os).push(o@),
{
}

/// The playback interpreter: the object table, the immutable loop
/// sequence, and the cursor state.
#[derive(Debug)]
pub struct Interpreter {
    objects: Vec<Object>,
    loop_insts: Vec<Instruction>,
    cursor: usize,
    elapsed: i64,
    bounds: Option<InterpBounds>,
    paused: bool,
    curve: Curve,
}

impl View for Interpreter {
    type V = StateV;

    closed spec fn view(&self) -> StateV {
        StateV {
            objects: view_objects(self.objects@),
            insts: view_insts(self.loop_insts@),
            cursor: self.cursor as int,
            elapsed: self.elapsed,
            bounds: self.bounds,
            paused: self.paused,
            curve: self.curve,
        }
    }
}

impl Interpreter {
    /// Builds an interpreter: replays the setup sequence into the object
    /// table, then checks every loop instruction against it.  Playback
    /// starts unpaused at the first instruction.
    pub fn new(setup: Vec<Instruction>, loop_insts: Vec<Instruction>, curve: Curve) -> (r: Result<
        Interpreter,
        BuildError,
    >)
        requires
            insts_wf(view_insts(loop_insts@)),
        ensures
            match r {
                Ok(it) => ({
                    &&& build_objects(view_insts(setup@)) == Ok::<_, BuildError>(it@.objects)
                    &&& check_loop(view_insts(loop_insts@), it@.objects.len() as int) is Ok
                    &&& it@ == (StateV {
                        objects: it@.objects,
                        insts: view_insts(loop_insts@),
                        cursor: 0,
                        elapsed: 0,
                        bounds: None,
                        paused: false,
                        curve,
                    })
                    &&& state_wf(it@)
                }),
                Err(e) => match build_objects(view_insts(setup@)) {
                    Err(e2) => e == e2,
                    Ok(objs) => check_loop(view_insts(loop_insts@), objs.len() as int) == Err::<
                        (),
                        BuildError,
                    >(e),
                },
            },
    {
        let ghost sv = view_insts(setup@);
        let ghost lv = view_insts(loop_insts@);
        let mut objects: Vec<Object> = Vec::new();
        let n = setup.len();
        let mut i: usize = 0;
        proof {
            assert(view_objects(objects@) =~= Seq::<ObjectV>::empty());
        }
        while i < n
            invariant
                i <= n,
                n == setup@.len(),
                sv == view_insts(setup@),
                build_objects(sv) == build_from(sv, i as int, view_objects(objects@)),
                objs_wf(view_objects(objects@)),
            decreases n - i,
        {
            proof {
                assert(sv[i as int] == setup@[i as int]@);
            }
            match &setup[i] {
                Instruction::Create(info) => {
                    let obj = match info {
                        ObjInfo::Rect => Object {
                            kind: ObjectKind::Rect { size: Vec2::Relative(1000, 1000) },
                            position: Vec2::Relative(0, 0),
                            color: Color::white(),
                            enabled: false,
                        },
                        ObjInfo::Text(content) => Object {
                            kind: ObjectKind::Text {
                                content: crate::parser::copy_bytes(content),
                                font_size: 30000,
                                bounds: Vec2::Relative(0, 0),
                            },
                            position: Vec2::Relative(0, 0),
                            color: Color::white(),
                            enabled: false,
                        },
                    };
                    proof {
                        assert(match setup@[i as int]@ {
                            InstructionV::Create(iv) => obj@ == make_object(iv),
                            _ => false,
                        });
                        lemma_view_objects_push(objects@, obj);
                        assert(obj_wf(obj@));
                    }
                    objects.push(obj);
                    i += 1;
                },
                _ => {
                    return Err(BuildError::SetupError { at: i });
                },
            }
        }
        let count = objects.len();
        let m = loop_insts.len();
        let mut j: usize = 0;
        while j < m
            invariant
                j <= m,
                m == loop_insts@.len(),
                lv == view_insts(loop_insts@),
                count == view_objects(objects@).len(),
                sv == view_insts(setup@),
                build_objects(sv) == Ok::<Seq<ObjectV>, BuildError>(view_objects(objects@)),
                objs_wf(view_objects(objects@)),
                insts_wf(lv),
                check_loop(lv, count as int) == check_from(lv, j as int, count as int),
            decreases m - j,
        {
            proof {
                assert(lv[j as int] == loop_insts@[j as int]@);
            }
            match &loop_insts[j] {
                Instruction::Create(_) => {
                    return Err(BuildError::UnsupportedAction { at: j });
                },
                Instruction::Wait(_) => {
                    j += 1;
                },
                Instruction::Grow(k0, _) => {
                    if *k0 >= count {
                        return Err(BuildError::IndexError { at: j, index: *k0, count });
                    }
                    j += 1;
                },
                Instruction::Fade(k0, _, _) => {
                    if *k0 >= count {
                        return Err(BuildError::IndexError { at: j, index: *k0, count });
                    }
                    j += 1;
                },
                Instruction::Move(k0, _, _) => {
                    if *k0 >= count {
                        return Err(BuildError::IndexError { at: j, index: *k0, count });
                    }
                    j += 1;
                },
                Instruction::Enable(k0) => {
                    if *k0 >= count {
                        return Err(BuildError::IndexError { at: j, index: *k0, count });
                    }
                    j += 1;
                },
                Instruction::Disable(k0) => {
                    if *k0 >= count {
                        return Err(BuildError::IndexError { at: j, index: *k0, count });
                    }
                    j += 1;
                },
            }
        }
        proof {
            lemma_check_all(lv, 0, count as int);
        }
        Ok(
            Interpreter {
                objects,
                loop_insts,
                cursor: 0,
                elapsed: 0,
                bounds: None,
                paused: false,
                curve,
            },
        )
    }

    /// The object table, for the renderer to read.
    pub fn objects(&self) -> (r: &Vec<Object>)
        ensures
            view_objects(r@) == self@.objects,
    {
        &self.objects
    }

    /// Whether the cursor has passed the last loop instruction.
    pub fn is_completed(&self) -> (r: bool)
        ensures
            r == (self@.cursor >= self@.insts.len()),
    {
        self.cursor >= self.loop_insts.len()
    }

    /// Whether playback is suspended.
    pub fn is_paused(&self) -> (r: bool)
        ensures
            r == self@.paused,
    {
        self.paused
    }

    /// Suspends or resumes playback; nothing else changes.
    pub fn set_paused(&mut self, paused: bool)
        ensures
            final(self)@ == (StateV { paused, ..old(self)@ }),
            state_wf(old(self)@) ==> state_wf(final(self)@),
    {
        self.paused = paused;
    }

    /// Rewinds the cursor to the first loop instruction; the object table
    /// keeps its current values.
    pub fn restart(&mut self)
        ensures
            final(self)@ == (StateV { cursor: 0, elapsed: 0, bounds: None, ..old(self)@ }),
            state_wf(old(self)@) ==> state_wf(final(self)@),
    {
        self.cursor = 0;
        self.elapsed = 0;
        self.bounds = None;
    }

    /// Installs a freshly measured bounding size, in relative thousandths,
    /// on text object `k`; reports whether `k` named a text object.  This
    /// is the one-off resize path and works while paused too.
    pub fn set_text_bounds(&mut self, k: usize, w: i64, h: i64) -> (r: bool)
        requires
            in_range(w),
            in_range(h),
            state_wf(old(self)@),
        ensures
            r == (k < old(self)@.objects.len() && old(self)@.objects[k as int].kind is Text),
            r ==> final(self)@ == (StateV {
                objects: old(self)@.objects.update(
                    k as int,
                    with_text_bounds(old(self)@.objects[k as int], w, h),
                ),
                ..old(self)@
            }),
            !r ==> final(self)@ == old(self)@,
            state_wf(final(self)@),
    {
        let ghost s = self@;
        if k >= self.objects.len() {
            return false;
        }
        proof {
            assert(s.objects[k as int] == self.objects@[k as int]@);
        }
        let is_text = matches!(&self.objects[k].kind, ObjectKind::Text { .. });
        if !is_text {
            return false;
        }
        let o = &mut self.objects[k];
        match &mut o.kind {
            ObjectKind::Text { bounds, .. } => {
                *bounds = Vec2::Relative(w, h);
            },
            _ => {
                proof {
                    assert(false);
                }
            },
        }
        proof {
            assert(view_objects(self.objects@) =~= s.objects.update(
                k as int,
                with_text_bounds(s.objects[k as int], w, h),
            ));
            assert(objs_wf(self@.objects)) by {
                assert forall|j: int| 0 <= j < self@.objects.len() implies obj_wf(
                    #[trigger] self@.objects[j],
                ) by {
                    if j != k as int {
                        assert(self@.objects[j] == s.objects[j]);
                    }
                }
            }
            lemma_state_wf_objects(s, self@);
        }
        true
    }

    /// Feeds `dt` thousandths of a second of elapsed wall-clock time
    /// forward.  Nothing happens while paused or once the loop sequence is
    /// exhausted; otherwise the current instruction blends its target, and
    /// instructions whose durations are spent hand the leftover time to
    /// their successors within the same call.
    pub fn advance(&mut self, dt: i64)
        requires
            state_wf(old(self)@),
            0 <= dt <= NUM_MAX,
        ensures
            final(self)@ == spec_advance(old(self)@, dt),
            state_wf(final(self)@),
    {
        let ghost s0 = self@;
        if self.paused {
            return;
        }
        let mut dt_left: i64 = dt;
        loop
            invariant_except_break
                spec_advance(s0, dt) == spec_advance(self@, dt_left),
            invariant
                state_wf(self@),
                !self@.paused,
                0 <= dt_left <= NUM_MAX,
            ensures
                self@ == spec_advance(s0, dt),
                state_wf(self@),
            decreases self@.insts.len() - self@.cursor,
        {
            if self.cursor >= self.loop_insts.len() {
                proof {
                    assert(spec_advance(self@, dt_left) == self@);
                }
                break;
            }
            let ghost si = self@;
            let ghost st = spec_step(si, dt_left);
            let cur = self.cursor;
            proof {
                assert(si.insts[si.cursor] == self.loop_insts@[cur as int]@);
                assert(inst_ok(si.insts[si.cursor], si.objects.len() as int));
                assert(wf_inst(si.insts[si.cursor]));
                lemma_step_wf(si, dt_left);
            }
            match &self.loop_insts[cur] {
                Instruction::Create(_) => {
                    // construction rejected any creation in the loop sequence
                    proof {
                        assert(false);
                    }
                },
                Instruction::Enable(k0) => {
                    let k = *k0;
                    let o = &mut self.objects[k];
                    o.enabled = true;
                    self.cursor = cur + 1;
                    self.elapsed = 0;
                    self.bounds = None;
                    proof {
                        assert(view_objects(self.objects@) =~= set_enabled(
                            si.objects,
                            k as int,
                            true,
                        ));
                        assert(self@ =~= st.0);
                    }
                },
                Instruction::Disable(k0) => {
                    let k = *k0;
                    let o = &mut self.objects[k];
                    o.enabled = false;
                    self.cursor = cur + 1;
                    self.elapsed = 0;
                    self.bounds = None;
                    proof {
                        assert(view_objects(self.objects@) =~= set_enabled(
                            si.objects,
                            k as int,
                            false,
                        ));
                        assert(self@ =~= st.0);
                    }
                },
                Instruction::Wait(d0) => {
                    let d = *d0;
                    let t = self.elapsed + dt_left;
                    if t >= d {
                        self.cursor = cur + 1;
                        self.elapsed = 0;
                        self.bounds = None;
                        dt_left = if d > 0 {
                            t - d
                        } else {
                            t
                        };
                        proof {
                            assert(self@ =~= st.0);
                            assert(dt_left == st.1);
                        }
                    } else {
                        self.elapsed = t;
                        proof {
                            assert(self@ =~= st.0);
                            assert(self@ == spec_advance(s0, dt));
                        }
                        break;
                    }
                },
                Instruction::Grow(k0, d0) => {
                    let k = *k0;
                    let d = *d0;
                    let b = match self.bounds {
                        Some(bb) => bb,
                        None => match &self.objects[k].kind {
                            ObjectKind::Rect { .. } => InterpBounds::Vec2(
                                Vec2::Relative(0, 0),
                                Vec2::Relative(1000, 1000),
                            ),
                            ObjectKind::Text { font_size, .. } => InterpBounds::Scalar(
                                0,
                                *font_size,
                            ),
                        },
                    };
                    proof {
                        assert(si.objects[k as int] == self.objects@[k as int]@);
                        assert(b == (match si.bounds {
                            Some(bb) => bb,
                            None => snapshot_of(si.objects, si.insts[si.cursor]),
                        }));
                        assert(bounds_ok_for(si.objects, si.insts[si.cursor], b));
                    }
                    let t = self.elapsed + dt_left;
                    let f = crate::ease::ease(self.curve, t, d);
                    let o = &mut self.objects[k];
                    o.enabled = true;
                    match &mut o.kind {
                        ObjectKind::Rect { size } => {
                            match b {
                                InterpBounds::Vec2(lo, hi) => {
                                    *size = crate::geom::blend_vec2_same(lo, hi, f);
                                },
                                _ => {
                                    proof {
                                        assert(false);
                                    }
                                },
                            }
                        },
                        ObjectKind::Text { font_size, .. } => {
                            match b {
                                InterpBounds::Scalar(lo, hi) => {
                                    *font_size = num::blend(lo, hi, f);
                                },
                                _ => {
                                    proof {
                                        assert(false);
                                    }
                                },
                            }
                        },
                    }
                    proof {
                        assert(view_objects(self.objects@) =~= apply_timed(
                            si.objects,
                            si.insts[si.cursor],
                            b,
                            f,
                        ));
                    }
                    if t >= d {
                        self.cursor = cur + 1;
                        self.elapsed = 0;
                        self.bounds = None;
                        dt_left = if d > 0 {
                            t - d
                        } else {
                            t
                        };
                        proof {
                            assert(self@ =~= st.0);
                            assert(dt_left == st.1);
                        }
                    } else {
                        self.elapsed = t;
                        self.bounds = Some(b);
                        proof {
                            assert(self@ =~= st.0);
                            assert(self@ == spec_advance(s0, dt));
                        }
                        break;
                    }
                },
                Instruction::Move(k0, tgt0, d0) => {
                    let k = *k0;
                    let tgt = *tgt0;
                    let d = *d0;
                    let b = match self.bounds {
                        Some(bb) => bb,
                        None => InterpBounds::Vec2(self.objects[k].position, tgt),
                    };
                    proof {
                        assert(si.objects[k as int] == self.objects@[k as int]@);
                        assert(b == (match si.bounds {
                            Some(bb) => bb,
                            None => snapshot_of(si.objects, si.insts[si.cursor]),
                        }));
                        assert(bounds_ok_for(si.objects, si.insts[si.cursor], b));
                    }
                    let t = self.elapsed + dt_left;
                    let f = crate::ease::ease(self.curve, t, d);
                    let nv = match b {
                        InterpBounds::Vec2(lo, hi) => crate::geom::blend_vec2_same(lo, hi, f),
                        _ => {
                            proof {
                                assert(false);
                            }
                            vstd::pervasive::unreached()
                        },
                    };
                    let o = &mut self.objects[k];
                    o.position = nv;
                    proof {
                        assert(view_objects(self.objects@) =~= apply_timed(
                            si.objects,
                            si.insts[si.cursor],
                            b,
                            f,
                        ));
                    }
                    if t >= d {
                        self.cursor = cur + 1;
                        self.elapsed = 0;
                        self.bounds = None;
                        dt_left = if d > 0 {
                            t - d
                        } else {
                            t
                        };
                        proof {
                            assert(self@ =~= st.0);
                            assert(dt_left == st.1);
                        }
                    } else {
                        self.elapsed = t;
                        self.bounds = Some(b);
                        proof {
                            assert(self@ =~= st.0);
                            assert(self@ == spec_advance(s0, dt));
                        }
                        break;
                    }
                },
                Instruction::Fade(k0, c0, d0) => {
                    let k = *k0;
                    let ctgt = *c0;
                    let d = *d0;
                    let b = match self.bounds {
                        Some(bb) => bb,
                        None => InterpBounds::Clr(self.objects[k].color, ctgt),
                    };
                    proof {
                        assert(si.objects[k as int] == self.objects@[k as int]@);
                        assert(b == (match si.bounds {
                            Some(bb) => bb,
                            None => snapshot_of(si.objects, si.insts[si.cursor]),
                        }));
                        assert(bounds_ok_for(si.objects, si.insts[si.cursor], b));
                    }
                    let t = self.elapsed + dt_left;
                    let f = crate::ease::ease(self.curve, t, d);
                    let nc = match b {
                        InterpBounds::Clr(lo, hi) => crate::color::blend_color(lo, hi, f),
                        _ => {
                            proof {
                                assert(false);
                            }
                            vstd::pervasive::unreached()
                        },
                    };
                    let o = &mut self.objects[k];
                    o.enabled = true;
                    o.color = nc;
                    proof {
                        assert(view_objects(self.objects@) =~= apply_timed(
                            si.objects,
                            si.insts[si.cursor],
                            b,
                            f,
                        ));
                    }
                    if t >= d {
                        self.cursor = cur + 1;
                        self.elapsed = 0;
                        self.bounds = None;
                        dt_left = if d > 0 {
                            t - d
                        } else {
                            t
                        };
                        proof {
                            assert(self@ =~= st.0);
                            assert(dt_left == st.1);
                        }
                    } else {
                        self.elapsed = t;
                        self.bounds = Some(b);
                        proof {
                            assert(self@ =~= st.0);
                            assert(self@ == spec_advance(s0, dt));
                        }
                        break;
                    }
                },
            }
        }
    }
}

/// The object with its measured text bounds replaced (texts only).
pub open spec fn with_text_bounds(o: ObjectV, w: i64, h: i64) -> ObjectV {
    match o.kind {
        ObjectKindV::Text { content, font_size, .. } => ObjectV {
            kind: ObjectKindV::Text { content, font_size, bounds: Vec2::Relative(w, h) },
            ..o
        },
        _ => o,
    }
}

/// The timed length of an instruction, counting only time still to be
/// waited for: negative durations finish instantly.
pub open spec fn pos_dur(i: InstructionV) -> int {
    let d = inst_duration(i);
    if d > 0 {
        d as int
    } else {
        0
    }
}

/// The total timed length of the instructions from rank `i` on.
pub open spec fn sum_pos(insts: Seq<InstructionV>, i: int) -> int
    recommends
        0 <= i,
    decreases insts.len() - i when 0 <= i
{
    if i >= insts.len() {
        0
    } else {
        pos_dur(insts[i]) + sum_pos(insts, i + 1)
    }
}

/// Timed lengths never add up to less than nothing.
pub proof fn lemma_sum_pos_nonneg(insts: Seq<InstructionV>, i: int)
    requires
        0 <= i,
    ensures
        sum_pos(insts, i) >= 0,
    decreases insts.len() - i,
{
    if i < insts.len() {
        lemma_sum_pos_nonneg(insts, i + 1);
    }
}

/// A later suffix never needs more time than an earlier one.
pub proof fn lemma_sum_pos_suffix(insts: Seq<InstructionV>, i: int, j: int)
    requires
        0 <= i <= j,
    ensures
        sum_pos(insts, i) >= sum_pos(insts, j),
    decreases j - i,
{
    if i < j {
        lemma_sum_pos_suffix(insts, i + 1, j);
    }
    lemma_sum_pos_nonneg(insts, j);
}

/// The wall-clock time still needed to finish playback from state `s`.
pub open spec fn time_left(s: StateV) -> int {
    if s.cursor < 0 || s.cursor >= s.insts.len() {
        0
    } else {
        let cur = pos_dur(s.insts[s.cursor]) - s.elapsed;
        (if cur > 0 {
            cur
        } else {
            0
        }) + sum_pos(s.insts, s.cursor + 1)
    }
}

/// The table after one instruction has fully run: the timed actions land on
/// their end bounds (the pending snapshot where one was already taken),
/// `Enable`/`Disable` set their flag, and the rest change nothing.
pub open spec fn apply_end_one(
    objs: Seq<ObjectV>,
    inst: InstructionV,
    pending: Option<InterpBounds>,
) -> Seq<ObjectV> {
    match inst {
        InstructionV::Create(_) => objs,
        InstructionV::Wait(_) => objs,
        InstructionV::Enable(k) => set_enabled(objs, k as int, true),
        InstructionV::Disable(k) => set_enabled(objs, k as int, false),
        _ => {
            let b = match pending {
                Some(bb) => bb,
                None => snapshot_of(objs, inst),
            };
            apply_timed(objs, inst, b, crate::num::SCALE)
        },
    }
}

/// The table once every instruction from rank `i` on has fully run, with a
/// pending snapshot for the first of them where one was already taken.
pub open spec fn fold_end(
    objs: Seq<ObjectV>,
    pending: Option<InterpBounds>,
    insts: Seq<InstructionV>,
    i: int,
) -> Seq<ObjectV>
    recommends
        0 <= i,
    decreases insts.len() - i when 0 <= i
{
    if i >= insts.len() {
        objs
    } else {
        fold_end(apply_end_one(objs, insts[i], pending), None, insts, i + 1)
    }
}

/// The object table playback will end with: each remaining instruction's
/// final value, applied in order — the last write to each field wins.
pub open spec fn final_image(s: StateV) -> Seq<ObjectV> {
    fold_end(s.objects, s.bounds, s.insts, s.cursor)
}

/// One step never changes where playback will end: a finished instruction
/// lands exactly on its end bound, and a part-played one keeps its snapshot
/// pending.
proof fn lemma_step_final(s: StateV, dt: i64)
    requires
        state_wf(s),
        !s.paused,
        0 <= s.cursor < s.insts.len(),
        0 <= dt <= NUM_MAX,
        s.insts[s.cursor] !is Create,
    ensures
        final_image(spec_step(s, dt).0) == final_image(s),
{
    let st = spec_step(s, dt);
    let inst = s.insts[s.cursor];
    let c = s.cursor;
    match inst {
        InstructionV::Enable(_) => {
            assert(s.bounds is None);
        },
        InstructionV::Disable(_) => {
            assert(s.bounds is None);
        },
        InstructionV::Wait(_) => {
            assert(s.bounds is None);
        },
        InstructionV::Create(_) => {
        },
        _ => {
            let d = inst_duration(inst);
            let b = match s.bounds {
                Some(bb) => bb,
                None => snapshot_of(s.objects, inst),
            };
            let t = s.elapsed + dt;
            let f = spec_ease(s.curve, t as i64, d) as i64;
            if t >= d {
                assert(f == crate::num::SCALE);
                assert(apply_end_one(s.objects, inst, s.bounds) == apply_timed(
                    s.objects,
                    inst,
                    b,
                    crate::num::SCALE,
                ));
            } else {
                let objs2 = apply_timed(s.objects, inst, b, f);
                let k = inst_target(inst);
                assert(inst_ok(inst, s.objects.len() as int));
                assert(apply_end_one(objs2, inst, Some(b)) =~= apply_end_one(
                    s.objects,
                    inst,
                    s.bounds,
                ));
                assert(final_image(st.0) == fold_end(
                    apply_end_one(objs2, inst, Some(b)),
                    None,
                    s.insts,
                    c + 1,
                ));
            }
        },
    }
}

/// Advancing preserves well-formedness, the loop sequence, the object
/// count, the pause flag and the curve, never moves the cursor backwards,
/// and never changes where playback will end.
pub proof fn lemma_advance_props(s: StateV, dt: i64)
    requires
        state_wf(s),
        0 <= dt <= NUM_MAX,
    ensures
        state_wf(spec_advance(s, dt)),
        spec_advance(s, dt).insts == s.insts,
        spec_advance(s, dt).objects.len() == s.objects.len(),
        spec_advance(s, dt).paused == s.paused,
        spec_advance(s, dt).curve == s.curve,
        s.cursor <= spec_advance(s, dt).cursor <= s.insts.len(),
        final_image(spec_advance(s, dt)) == final_image(s),
    decreases s.insts.len() - s.cursor,
{
    if !s.paused && 0 <= s.cursor < s.insts.len() {
        assert(inst_ok(s.insts[s.cursor], s.objects.len() as int));
        lemma_step_wf(s, dt);
        lemma_step_final(s, dt);
        let st = spec_step(s, dt);
        if st.2 {
            lemma_advance_props(st.0, st.1);
        }
    }
}

/// Idempotent completion: once the cursor has passed the last loop
/// instruction, advancing by any time changes nothing at all.
pub proof fn lemma_completion_idempotent(s: StateV, dt: i64)
    requires
        s.cursor >= s.insts.len(),
    ensures
        spec_advance(s, dt) == s,
{
}

/// An object once shown stays shown while no `Disable` of it remains.
proof fn lemma_enabled_preserved(s: StateV, dt: i64, k: usize)
    requires
        state_wf(s),
        0 <= dt <= NUM_MAX,
        (k as int) < s.objects.len(),
        s.objects[k as int].enabled,
        forall|j: int|
            s.cursor <= j < s.insts.len() ==> s.insts[j] != InstructionV::Disable(k),
    ensures
        spec_advance(s, dt).objects[k as int].enabled,
    decreases s.insts.len() - s.cursor,
{
    if !s.paused && 0 <= s.cursor < s.insts.len() {
        assert(inst_ok(s.insts[s.cursor], s.objects.len() as int));
        lemma_step_wf(s, dt);
        let st = spec_step(s, dt);
        assert(st.0.objects[k as int].enabled) by {
            assert(s.insts[s.cursor] != InstructionV::Disable(k));
        }
        if st.2 {
            lemma_enabled_preserved(st.0, st.1, k);
        }
    }
}

/// Auto-enable: an `advance` that reaches a `Grow` or `Fade` aimed at
/// object `k` leaves `k` shown, even if it started hidden — provided no
/// `Disable` of `k` stands later in the loop sequence, which could run
/// within the same call once the instruction finishes.
pub proof fn lemma_auto_enable(s: StateV, dt: i64, k: usize)
    requires
        state_wf(s),
        !s.paused,
        0 <= dt <= NUM_MAX,
        0 <= s.cursor < s.insts.len(),
        (s.insts[s.cursor] matches InstructionV::Grow(k2, _) && k2 == k) || (
        s.insts[s.cursor] matches InstructionV::Fade(k2, _, _) && k2 == k),
        forall|j: int| s.cursor < j < s.insts.len() ==> s.insts[j] != InstructionV::Disable(k),
    ensures
        spec_advance(s, dt).objects[k as int].enabled,
{
    assert(inst_ok(s.insts[s.cursor], s.objects.len() as int));
    lemma_step_wf(s, dt);
    let st = spec_step(s, dt);
    assert(st.0.objects[k as int].enabled);
    if st.2 {
        lemma_enabled_preserved(st.0, st.1, k);
    }
}

/// A single advance whose time covers everything left finishes playback.
pub proof fn lemma_advance_completes(s: StateV, dt: i64)
    requires
        state_wf(s),
        !s.paused,
        0 <= dt <= NUM_MAX,
        dt >= time_left(s),
    ensures
        spec_advance(s, dt).cursor >= s.insts.len(),
    decreases s.insts.len() - s.cursor,
{
    if 0 <= s.cursor < s.insts.len() {
        assert(inst_ok(s.insts[s.cursor], s.objects.len() as int));
        lemma_step_wf(s, dt);
        lemma_sum_pos_nonneg(s.insts, s.cursor + 1);
        lemma_sum_pos_suffix(s.insts, s.cursor, s.cursor + 1);
        let st = spec_step(s, dt);
        assert(st.2);
        assert(st.1 >= time_left(st.0)) by {
            assert(time_left(st.0) == sum_pos(s.insts, s.cursor + 1));
        }
        lemma_advance_completes(st.0, st.1);
    }
}

/// An advance consumes its time: afterwards either playback is over, or at
/// least `dt` has been taken off the time still needed — and an unfinished
/// playback always still needs some time.
proof fn lemma_advance_progress(s: StateV, dt: i64)
    requires
        state_wf(s),
        !s.paused,
        0 <= dt <= NUM_MAX,
    ensures
        spec_advance(s, dt).cursor >= s.insts.len() || time_left(spec_advance(s, dt))
            <= time_left(s) - dt,
        spec_advance(s, dt).cursor < s.insts.len() ==> time_left(spec_advance(s, dt)) > 0,
    decreases s.insts.len() - s.cursor,
{
    if 0 <= s.cursor < s.insts.len() {
        assert(inst_ok(s.insts[s.cursor], s.objects.len() as int));
        lemma_step_wf(s, dt);
        lemma_sum_pos_nonneg(s.insts, s.cursor + 1);
        lemma_sum_pos_suffix(s.insts, s.cursor, s.cursor + 1);
        let st = spec_step(s, dt);
        if st.2 {
            assert(time_left(st.0) == sum_pos(s.insts, s.cursor + 1));
            assert(time_left(st.0) <= time_left(s) - dt + st.1);
            lemma_advance_progress(st.0, st.1);
        } else {
            lemma_sum_pos_nonneg(s.insts, s.cursor + 1);
        }
    }
}

/// The wall-clock times of a schedule of advance calls, summed.
pub open spec fn sum_dts(dts: Seq<i64>) -> int
    decreases dts.len(),
{
    if dts.len() == 0 {
        0
    } else {
        dts[0] + sum_dts(dts.drop_first())
    }
}

/// The state after a whole schedule of advance calls, one after the other.
pub open spec fn run_all(s: StateV, dts: Seq<i64>) -> StateV
    decreases dts.len(),
{
    if dts.len() == 0 {
        s
    } else {
        run_all(spec_advance(s, dts[0]), dts.drop_first())
    }
}

/// Finished playback stays exactly as it is through any schedule.
pub proof fn lemma_run_all_completed(s: StateV, dts: Seq<i64>)
    requires
        s.cursor >= s.insts.len(),
    ensures
        run_all(s, dts) == s,
    decreases dts.len(),
{
    if dts.len() > 0 {
        lemma_completion_idempotent(s, dts[0]);
        lemma_run_all_completed(s, dts.drop_first());
    }
}

/// Round trip: any schedule of frame times whose sum covers the time still
/// needed finishes playback, and leaves every object exactly at the last
/// value the remaining instructions aimed it at (`final_image`), never at
/// an intermediate interpolated value.
pub proof fn lemma_round_trip(s: StateV, dts: Seq<i64>)
    requires
        state_wf(s),
        !s.paused,
        forall|j: int| 0 <= j < dts.len() ==> 0 <= #[trigger] dts[j] <= NUM_MAX,
        sum_dts(dts) >= time_left(s),
        dts.len() >= 1,
    ensures
        run_all(s, dts).cursor >= s.insts.len(),
        run_all(s, dts).objects == final_image(s),
    decreases dts.len(),
{
    let d0 = dts[0];
    let rest = dts.drop_first();
    let s1 = spec_advance(s, d0);
    lemma_advance_props(s, d0);
    assert(sum_dts(rest) == sum_dts(dts) - d0);
    if time_left(s) <= d0 {
        lemma_advance_completes(s, d0);
        lemma_run_all_completed(s1, rest);
        assert(final_image(s1) == s1.objects);
    } else {
        lemma_advance_progress(s, d0);
        if s1.cursor >= s1.insts.len() {
            lemma_run_all_completed(s1, rest);
            assert(final_image(s1) == s1.objects);
        } else {
            assert(time_left(s1) > 0);
            assert(sum_dts(rest) >= time_left(s1));
            assert(rest.len() >= 1) by {
                if rest.len() == 0 {
                    assert(sum_dts(rest) == 0);
                }
            }
            assert(forall|j: int| 0 <= j < rest.len() ==> 0 <= #[trigger] rest[j] <= NUM_MAX)
                by {
                assert(forall|j: int| 0 <= j < rest.len() ==> rest[j] == dts[j + 1]);
            }
            lemma_round_trip(s1, rest);
        }
    }
}

/// Two states that differ only in a table of equally well-formed objects
/// with the same kinds are equally well-formed.
proof fn lemma_state_wf_objects(s: StateV, s2: StateV)
    requires
        state_wf(s),
        objs_wf(s2.objects),
        s2.objects.len() == s.objects.len(),
        s2.insts == s.insts,
        s2.cursor == s.cursor,
        s2.elapsed == s.elapsed,
        s2.bounds == s.bounds,
        forall|j: int|
            0 <= j < s.objects.len() ==> ((#[trigger] s2.objects[j]).kind is Rect
                <==> s.objects[j].kind is Rect),
    ensures
        state_wf(s2),
{
}

} // verus!
