use vstd::prelude::*;

use crate::batch::{Record, SimpleRecord};
use crate::frontend::NO_MATERIAL;

verus! {

/// One operation of a render pass.
#[derive(Debug, PartialEq, Eq)]
pub enum DrawOp<C> {
    /// Bind the pipeline with this id.
    SetPipeline(u32),
    /// Bind the material (bind group) `.1` at slot `.0`.
    SetBindGroup(u32, u32),
    /// Bind the record's instance byte range as the instance buffer and draw
    /// the record's indices, offset by its first vertex, for its instances.
    Draw(SimpleRecord),
    /// Let a complex command draw itself.
    Complex(C),
    /// Bind the shared vertex, instance and index buffers again.
    RestoreBuffers,
}

/// What the plan assumes to be bound: a pipeline, if any, and for each of
/// the four slots a material, `NO_MATERIAL` for none.
pub struct Bound {
    pub pipeline: Option<u32>,
    pub materials: Seq<u32>,
}

/// Nothing is bound at the start of a pass, nor after a complex command.
pub open spec fn nothing_bound() -> Bound {
    Bound { pipeline: None, materials: seq![NO_MATERIAL, NO_MATERIAL, NO_MATERIAL, NO_MATERIAL] }
}

/// The bind-group operation for slot `i` of a draw whose key asks for
/// material `m` there.
pub open spec fn slot_ops<C>(bound: Bound, i: int, m: u32) -> Seq<DrawOp<C>> {
    if m != NO_MATERIAL && bound.materials[i] != m {
        seq![DrawOp::SetBindGroup(i as u32, m)]
    } else {
        Seq::empty()
    }
}

/// The operations that draw one record, given what is bound before it.
pub open spec fn record_ops<C>(bound: Bound, r: Record<C>) -> Seq<DrawOp<C>> {
    match r {
        Record::Simple(rec) => {
            let m = rec.key.material_ids;
            (if bound.pipeline != Some(rec.key.pipeline_id) {
                seq![DrawOp::SetPipeline(rec.key.pipeline_id)]
            } else {
                Seq::empty()
            }) + slot_ops(bound, 0, m[0]) + slot_ops(bound, 1, m[1]) + slot_ops(bound, 2, m[2])
                + slot_ops(bound, 3, m[3]) + seq![DrawOp::Draw(rec)]
        },
        Record::Complex(c) => seq![DrawOp::Complex(c), DrawOp::RestoreBuffers],
    }
}

/// The material bound at a slot after a draw that asked for `m` there.
pub open spec fn slot_after(before: u32, m: u32) -> u32 {
    if m != NO_MATERIAL {
        m
    } else {
        before
    }
}

/// What is bound after drawing one record.
pub open spec fn bound_after_record<C>(bound: Bound, r: Record<C>) -> Bound {
    match r {
        Record::Simple(rec) => {
            let m = rec.key.material_ids;
            Bound {
                pipeline: Some(rec.key.pipeline_id),
                materials: seq![
                    slot_after(bound.materials[0], m[0]),
                    slot_after(bound.materials[1], m[1]),
                    slot_after(bound.materials[2], m[2]),
                    slot_after(bound.materials[3], m[3]),
                ],
            }
        },
        Record::Complex(_) => nothing_bound(),
    }
}

/// What is bound after drawing the records of `rs`, from an empty pass.
pub open spec fn bound_after<C>(rs: Seq<Record<C>>) -> Bound
    decreases rs.len(),
{
    if rs.len() == 0 {
        nothing_bound()
    } else {
        bound_after_record(bound_after(rs.drop_last()), rs.last())
    }
}

/// The render-pass operations that draw the records of `rs`, in order: each
/// simple record binds its pipeline and materials where they are not bound
/// already, then draws; each complex command draws itself, after which the
/// shared buffers are bound again and nothing else is assumed bound.
pub open spec fn plan_of<C>(rs: Seq<Record<C>>) -> Seq<DrawOp<C>>
    decreases rs.len(),
{
    if rs.len() == 0 {
        Seq::empty()
    } else {
        plan_of(rs.drop_last()) + record_ops(bound_after(rs.drop_last()), rs.last())
    }
}

/// The bindings that the planner tracks while it emits operations.
struct Tracker {
    pipeline: Option<u32>,
    materials: [u32; 4],
}

impl Tracker {
    spec fn bound(&self) -> Bound {
        Bound { pipeline: self.pipeline, materials: self.materials@ }
    }
}

/// Appends the operations that draw one simple record.
fn push_simple_ops<C>(ops: &mut Vec<DrawOp<C>>, t: &mut Tracker, rec: SimpleRecord)
    ensures
        final(ops)@ == old(ops)@ + record_ops(old(t).bound(), Record::<C>::Simple(rec)),
        final(t).bound() == bound_after_record(old(t).bound(), Record::<C>::Simple(rec)),
{
    let ghost b = t.bound();
    let ghost before = ops@;
    let want = rec.key.pipeline_id;
    let switch = match t.pipeline {
        Some(p) => p != want,
        None => true,
    };
    if switch {
        ops.push(DrawOp::SetPipeline(want));
        t.pipeline = Some(want);
    }
    let ghost after_pipe = ops@;
    let mut i: usize = 0;
    while i < 4
        invariant
            i <= 4,
            t.pipeline == Some(want),
            want == rec.key.pipeline_id,
            b.materials.len() == 4,
            forall|j: int| 0 <= j < i ==> #[trigger] t.materials@[j] == slot_after(b.materials[j], rec.key.material_ids[j]),
            forall|j: int| i <= j < 4 ==> #[trigger] t.materials@[j] == b.materials[j],
            ops@ == after_pipe + (if i > 0 { slot_ops::<C>(b, 0, rec.key.material_ids[0]) } else { Seq::empty() })
                + (if i > 1 { slot_ops::<C>(b, 1, rec.key.material_ids[1]) } else { Seq::empty() })
                + (if i > 2 { slot_ops::<C>(b, 2, rec.key.material_ids[2]) } else { Seq::empty() })
                + (if i > 3 { slot_ops::<C>(b, 3, rec.key.material_ids[3]) } else { Seq::empty() }),
        decreases 4 - i,
    {
        let target = rec.key.material_ids[i];
        let ghost o = ops@;
        if target != NO_MATERIAL && t.materials[i] != target {
            ops.push(DrawOp::SetBindGroup(i as u32, target));
            t.materials[i] = target;
        }
        proof {
            assert(ops@ =~= o + slot_ops::<C>(b, i as int, rec.key.material_ids[i as int]));
        }
        i = i + 1;
    }
    ops.push(DrawOp::Draw(rec));
    proof {
        assert(ops@ =~= before + record_ops(b, Record::<C>::Simple(rec)));
        assert(t.materials@ =~= bound_after_record(b, Record::<C>::Simple(rec)).materials);
    }
}

/// Plans the render pass that draws the records in order, with as few
/// pipeline and bind-group switches as the order allows.
pub fn plan_draws<C>(records: Vec<Record<C>>) -> (ops: Vec<DrawOp<C>>)
    ensures
        ops@ == plan_of(records@),
{
    let ghost rs = records@;
    let mut ops: Vec<DrawOp<C>> = Vec::new();
    let mut t = Tracker { pipeline: None, materials: [NO_MATERIAL; 4] };
    proof {
        assert(t.materials@ =~= nothing_bound().materials);
    }
    for record in it: records.into_iter()
        invariant
            it.seq() == rs,
            ops@ == plan_of(rs.take(it.index() as int)),
            t.bound() == bound_after(rs.take(it.index() as int)),
    {
        let ghost k = it.index() as int;
        let ghost before = ops@;
        let ghost b = t.bound();
        proof {
            assert(rs.take(k + 1).drop_last() =~= rs.take(k));
            assert(rs.take(k + 1).last() == rs[k]);
        }
        match record {
            Record::Simple(rec) => {
                push_simple_ops(&mut ops, &mut t, rec);
            },
            Record::Complex(c) => {
                ops.push(DrawOp::Complex(c));
                ops.push(DrawOp::RestoreBuffers);
                t = Tracker { pipeline: None, materials: [NO_MATERIAL; 4] };
                proof {
                    assert(ops@ =~= before + record_ops(b, Record::Complex(c)));
                    assert(t.materials@ =~= nothing_bound().materials);
                }
            },
        }
    }
    proof {
        assert(rs.take(rs.len() as int) =~= rs);
    }
    ops
}


// ---------------------------------------------------------------------------
// What a plan binds, and the laws of plans
// ---------------------------------------------------------------------------

/// What is known to be bound after one operation. A complex command may bind
/// anything, so after it nothing is known to be bound.
pub open spec fn apply_op<C>(b: Bound, op: DrawOp<C>) -> Bound {
    match op {
        DrawOp::SetPipeline(p) => Bound { pipeline: Some(p), materials: b.materials },
        DrawOp::SetBindGroup(i, m) => Bound { pipeline: b.pipeline, materials: b.materials.update(i as int, m) },
        DrawOp::Complex(_) => nothing_bound(),
        DrawOp::Draw(_) => b,
        DrawOp::RestoreBuffers => b,
    }
}

/// What is known to be bound after the operations `ops`, starting from `b`.
pub open spec fn run_ops<C>(b: Bound, ops: Seq<DrawOp<C>>) -> Bound
    decreases ops.len(),
{
    if ops.len() == 0 {
        b
    } else {
        apply_op(run_ops(b, ops.drop_last()), ops.last())
    }
}

/// What is known to be bound after `ops`, in a pass that starts with nothing
/// bound.
pub open spec fn bound_by<C>(ops: Seq<DrawOp<C>>) -> Bound {
    run_ops(nothing_bound(), ops)
}

/// The records that the operations draw, in order: a `Draw` draws its simple
/// record, a `Complex` its complex command; the other operations draw nothing.
pub open spec fn drawn<C>(ops: Seq<DrawOp<C>>) -> Seq<Record<C>>
    decreases ops.len(),
{
    if ops.len() == 0 {
        Seq::empty()
    } else {
        let d = drawn(ops.drop_last());
        match ops.last() {
            DrawOp::Draw(r) => d.push(Record::Simple(r)),
            DrawOp::Complex(c) => d.push(Record::Complex(c)),
            _ => d,
        }
    }
}

proof fn lemma_run_concat<C>(b: Bound, x: Seq<DrawOp<C>>, y: Seq<DrawOp<C>>)
    ensures
        run_ops(b, x + y) == run_ops(run_ops(b, x), y),
    decreases y.len(),
{
    if y.len() == 0 {
        assert(x + y =~= x);
    } else {
        assert((x + y).drop_last() =~= x + y.drop_last());
        assert((x + y).last() == y.last());
        lemma_run_concat(b, x, y.drop_last());
    }
}

proof fn lemma_drawn_concat<C>(x: Seq<DrawOp<C>>, y: Seq<DrawOp<C>>)
    ensures
        drawn(x + y) == drawn(x) + drawn(y),
    decreases y.len(),
{
    if y.len() == 0 {
        assert(x + y =~= x);
        assert(drawn(x) + drawn(y) =~= drawn(x));
    } else {
        assert((x + y).drop_last() =~= x + y.drop_last());
        assert((x + y).last() == y.last());
        lemma_drawn_concat(x, y.drop_last());
        match y.last() {
            DrawOp::Draw(r) => {
                assert(drawn(x + y) =~= drawn(x) + drawn(y));
            },
            DrawOp::Complex(c) => {
                assert(drawn(x + y) =~= drawn(x) + drawn(y));
            },
            _ => {},
        }
    }
}

proof fn lemma_one_op<C>(b: Bound, op: DrawOp<C>)
    ensures
        run_ops(b, seq![op]) == apply_op(b, op),
        run_ops(b, Seq::<DrawOp<C>>::empty()) == b,
        drawn(seq![op]) == drawn(Seq::<DrawOp<C>>::empty()) + match op {
            DrawOp::Draw(r) => seq![Record::Simple(r)],
            DrawOp::Complex(c) => seq![Record::Complex(c)],
            _ => Seq::empty(),
        },
{
    assert(seq![op].drop_last() =~= Seq::<DrawOp<C>>::empty());
    assert(drawn(seq![op]) =~= drawn(Seq::<DrawOp<C>>::empty()) + match op {
        DrawOp::Draw(r) => seq![Record::Simple(r)],
        DrawOp::Complex(c) => seq![Record::Complex(c)],
        _ => Seq::empty(),
    });
}

/// The pieces of the operations of a simple record: the pipeline switch and
/// the four bind-group switches, which come before the draw.
pub open spec fn switch_ops<C>(b: Bound, rec: SimpleRecord) -> Seq<DrawOp<C>> {
    let m = rec.key.material_ids;
    (if b.pipeline != Some(rec.key.pipeline_id) {
        seq![DrawOp::SetPipeline(rec.key.pipeline_id)]
    } else {
        Seq::empty()
    }) + slot_ops(b, 0, m[0]) + slot_ops(b, 1, m[1]) + slot_ops(b, 2, m[2]) + slot_ops(b, 3, m[3])
}

proof fn lemma_slot_ops<C>(b: Bound, c: Bound, i: int, m: u32)
    requires
        0 <= i < 4,
        c.materials.len() == 4,
    ensures
        run_ops(c, slot_ops::<C>(b, i, m)) == (Bound {
            pipeline: c.pipeline,
            materials: if m != NO_MATERIAL && b.materials[i] != m { c.materials.update(i, m) } else { c.materials },
        }),
        drawn(slot_ops::<C>(b, i, m)) == Seq::<Record<C>>::empty(),
{
    if m != NO_MATERIAL && b.materials[i] != m {
        lemma_one_op(c, DrawOp::<C>::SetBindGroup(i as u32, m));
        assert(drawn(Seq::<DrawOp<C>>::empty()) =~= Seq::<Record<C>>::empty());
    }
}

/// Running the switches of a simple record binds its pipeline and, at each
/// slot where its key names a material, that material.
proof fn lemma_switch_ops<C>(b: Bound, rec: SimpleRecord)
    requires
        b.materials.len() == 4,
    ensures
        run_ops(b, switch_ops::<C>(b, rec)) == bound_after_record(b, Record::<C>::Simple(rec)),
        drawn(switch_ops::<C>(b, rec)) == Seq::<Record<C>>::empty(),
        record_ops(b, Record::<C>::Simple(rec)) == switch_ops::<C>(b, rec) + seq![DrawOp::<C>::Draw(rec)],
{
    let m = rec.key.material_ids;
    let p: Seq<DrawOp<C>> = if b.pipeline != Some(rec.key.pipeline_id) {
        seq![DrawOp::SetPipeline(rec.key.pipeline_id)]
    } else {
        Seq::empty()
    };
    lemma_one_op(b, DrawOp::<C>::SetPipeline(rec.key.pipeline_id));
    let b0 = run_ops(b, p);
    assert(b0.pipeline == Some(rec.key.pipeline_id) || b.pipeline == Some(rec.key.pipeline_id));
    assert(drawn(Seq::<DrawOp<C>>::empty()) =~= Seq::<Record<C>>::empty());
    assert(drawn(p) =~= Seq::<Record<C>>::empty());
    lemma_slot_ops::<C>(b, b0, 0, m[0]);
    let b1 = run_ops(b0, slot_ops::<C>(b, 0, m[0]));
    lemma_slot_ops::<C>(b, b1, 1, m[1]);
    let b2 = run_ops(b1, slot_ops::<C>(b, 1, m[1]));
    lemma_slot_ops::<C>(b, b2, 2, m[2]);
    let b3 = run_ops(b2, slot_ops::<C>(b, 2, m[2]));
    lemma_slot_ops::<C>(b, b3, 3, m[3]);
    let s0 = p + slot_ops::<C>(b, 0, m[0]);
    let s1 = s0 + slot_ops::<C>(b, 1, m[1]);
    let s2 = s1 + slot_ops::<C>(b, 2, m[2]);
    lemma_run_concat(b, p, slot_ops::<C>(b, 0, m[0]));
    lemma_run_concat(b, s0, slot_ops::<C>(b, 1, m[1]));
    lemma_run_concat(b, s1, slot_ops::<C>(b, 2, m[2]));
    lemma_run_concat(b, s2, slot_ops::<C>(b, 3, m[3]));
    lemma_drawn_concat(p, slot_ops::<C>(b, 0, m[0]));
    lemma_drawn_concat(s0, slot_ops::<C>(b, 1, m[1]));
    lemma_drawn_concat(s1, slot_ops::<C>(b, 2, m[2]));
    lemma_drawn_concat(s2, slot_ops::<C>(b, 3, m[3]));
    let fin = run_ops(b, switch_ops::<C>(b, rec));
    assert(fin.materials =~= bound_after_record(b, Record::<C>::Simple(rec)).materials);
    assert(drawn(switch_ops::<C>(b, rec)) =~= Seq::<Record<C>>::empty());
}

proof fn lemma_record_ops<C>(b: Bound, r: Record<C>)
    requires
        b.materials.len() == 4,
    ensures
        run_ops(b, record_ops(b, r)) == bound_after_record(b, r),
        drawn(record_ops(b, r)) == seq![r],
        bound_after_record(b, r).materials.len() == 4,
{
    match r {
        Record::Simple(rec) => {
            lemma_switch_ops::<C>(b, rec);
            lemma_run_concat(b, switch_ops::<C>(b, rec), seq![DrawOp::<C>::Draw(rec)]);
            lemma_one_op(run_ops(b, switch_ops::<C>(b, rec)), DrawOp::<C>::Draw(rec));
            lemma_drawn_concat(switch_ops::<C>(b, rec), seq![DrawOp::<C>::Draw(rec)]);
            assert(drawn(Seq::<DrawOp<C>>::empty()) =~= Seq::<Record<C>>::empty());
            assert(drawn(record_ops(b, r)) =~= seq![r]);
        },
        Record::Complex(c) => {
            let x = seq![DrawOp::<C>::Complex(c)];
            let y = seq![DrawOp::<C>::RestoreBuffers];
            assert(record_ops(b, r) =~= x + y);
            lemma_run_concat(b, x, y);
            lemma_one_op(b, DrawOp::<C>::Complex(c));
            lemma_one_op(run_ops(b, x), DrawOp::<C>::RestoreBuffers);
            lemma_drawn_concat(x, y);
            assert(drawn(Seq::<DrawOp<C>>::empty()) =~= Seq::<Record<C>>::empty());
            assert(drawn(record_ops(b, r)) =~= seq![r]);
        },
    }
}

/// What the plan of `rs` leaves bound is what the planner tracked.
pub proof fn lemma_plan_bound<C>(rs: Seq<Record<C>>)
    ensures
        bound_by(plan_of(rs)) == bound_after(rs),
        bound_after(rs).materials.len() == 4,
    decreases rs.len(),
{
    if rs.len() > 0 {
        lemma_plan_bound(rs.drop_last());
        let b = bound_after(rs.drop_last());
        lemma_run_concat(nothing_bound(), plan_of(rs.drop_last()), record_ops(b, rs.last()));
        lemma_record_ops(b, rs.last());
    }
}

/// Law: a plan draws every record exactly once, in order: the records drawn
/// by the operations of `plan_of(rs)` are `rs`.
pub proof fn lemma_plan_draws_each_record_once<C>(rs: Seq<Record<C>>)
    ensures
        drawn(plan_of(rs)) == rs,
    decreases rs.len(),
{
    if rs.len() == 0 {
        assert(drawn(plan_of(rs)) =~= rs);
    } else {
        lemma_plan_draws_each_record_once(rs.drop_last());
        lemma_plan_bound(rs.drop_last());
        let b = bound_after(rs.drop_last());
        lemma_drawn_concat(plan_of(rs.drop_last()), record_ops(b, rs.last()));
        lemma_record_ops(b, rs.last());
        assert(drawn(plan_of(rs)) =~= rs);
    }
}


/// What `b` binds is what a draw of `rec` needs: its pipeline, and its
/// material at each slot where its key names one.
pub open spec fn binds_for(b: Bound, rec: SimpleRecord) -> bool {
    &&& b.pipeline == Some(rec.key.pipeline_id)
    &&& forall|i: int|
        0 <= i < 4 && rec.key.material_ids[i] != NO_MATERIAL ==> #[trigger] b.materials[i] == rec.key.material_ids[i]
}

/// Every draw among `ops`, run from `c`, finds what it needs bound.
pub open spec fn draws_bound<C>(c: Bound, ops: Seq<DrawOp<C>>) -> bool {
    forall|j: int|
        #![trigger ops[j]]
        0 <= j < ops.len() ==> match ops[j] {
            DrawOp::Draw(rec) => binds_for(run_ops(c, ops.take(j)), rec),
            _ => true,
        }
}

/// No switch among `ops`, run from `c`, binds what is bound already, and
/// every bind-group switch binds a material to one of the four slots.
pub open spec fn switches_needed<C>(c: Bound, ops: Seq<DrawOp<C>>) -> bool {
    forall|j: int|
        #![trigger ops[j]]
        0 <= j < ops.len() ==> match ops[j] {
            DrawOp::SetPipeline(p) => run_ops(c, ops.take(j)).pipeline != Some(p),
            DrawOp::SetBindGroup(i, m) => {
                &&& i < 4
                &&& m != NO_MATERIAL
                &&& run_ops(c, ops.take(j)).materials[i as int] != m
            },
            _ => true,
        }
}

/// Every complex command among `ops` is followed at once by the rebinding of
/// the shared buffers.
pub open spec fn complex_then_restore<C>(ops: Seq<DrawOp<C>>) -> bool {
    forall|j: int|
        #![trigger ops[j]]
        0 <= j < ops.len() ==> match ops[j] {
            DrawOp::Complex(_) => j + 1 < ops.len() && ops[j + 1] is RestoreBuffers,
            _ => true,
        }
}

proof fn lemma_props_concat<C>(c: Bound, x: Seq<DrawOp<C>>, y: Seq<DrawOp<C>>)
    requires
        draws_bound(c, x),
        draws_bound(run_ops(c, x), y),
        switches_needed(c, x),
        switches_needed(run_ops(c, x), y),
        complex_then_restore(x),
        complex_then_restore(y),
    ensures
        draws_bound(c, x + y),
        switches_needed(c, x + y),
        complex_then_restore(x + y),
{
    let xy = x + y;
    assert forall|j: int| 0 <= j < xy.len() implies {
        &&& match #[trigger] xy[j] {
            DrawOp::Draw(rec) => binds_for(run_ops(c, xy.take(j)), rec),
            _ => true,
        }
        &&& match xy[j] {
            DrawOp::SetPipeline(p) => run_ops(c, xy.take(j)).pipeline != Some(p),
            DrawOp::SetBindGroup(i, m) => {
                &&& i < 4
                &&& m != NO_MATERIAL
                &&& run_ops(c, xy.take(j)).materials[i as int] != m
            },
            _ => true,
        }
        &&& match xy[j] {
            DrawOp::Complex(_) => j + 1 < xy.len() && xy[j + 1] is RestoreBuffers,
            _ => true,
        }
    } by {
        if j < x.len() {
            assert(xy.take(j) =~= x.take(j));
            assert(xy[j] == x[j]);
            if j + 1 < x.len() {
                assert(xy[j + 1] == x[j + 1]);
            }
        } else {
            let k = j - x.len();
            assert(xy.take(j) =~= x + y.take(k));
            assert(xy[j] == y[k]);
            lemma_run_concat(c, x, y.take(k));
            if k + 1 < y.len() {
                assert(xy[j + 1] == y[k + 1]);
            }
        }
    }
}

proof fn lemma_props_empty<C>(c: Bound)
    ensures
        draws_bound(c, Seq::<DrawOp<C>>::empty()),
        switches_needed(c, Seq::<DrawOp<C>>::empty()),
        complex_then_restore(Seq::<DrawOp<C>>::empty()),
{
}

proof fn lemma_props_slot<C>(b: Bound, c: Bound, i: int, m: u32)
    requires
        0 <= i < 4,
        c.materials.len() == 4,
        c.materials[i] == b.materials[i],
    ensures
        draws_bound(c, slot_ops::<C>(b, i, m)),
        switches_needed(c, slot_ops::<C>(b, i, m)),
        complex_then_restore(slot_ops::<C>(b, i, m)),
{
    let s = slot_ops::<C>(b, i, m);
    if s.len() > 0 {
        assert(s.take(0) =~= Seq::<DrawOp<C>>::empty());
    }
}

/// The switches of a simple record keep all three properties.
proof fn lemma_props_switch<C>(b: Bound, rec: SimpleRecord)
    requires
        b.materials.len() == 4,
    ensures
        draws_bound(b, switch_ops::<C>(b, rec)),
        switches_needed(b, switch_ops::<C>(b, rec)),
        complex_then_restore(switch_ops::<C>(b, rec)),
{
    let m = rec.key.material_ids;
    let p: Seq<DrawOp<C>> = if b.pipeline != Some(rec.key.pipeline_id) {
        seq![DrawOp::SetPipeline(rec.key.pipeline_id)]
    } else {
        Seq::empty()
    };
    if p.len() > 0 {
        assert(p.take(0) =~= Seq::<DrawOp<C>>::empty());
    }
    lemma_one_op(b, DrawOp::<C>::SetPipeline(rec.key.pipeline_id));
    let b0 = run_ops(b, p);
    lemma_slot_ops::<C>(b, b0, 0, m[0]);
    lemma_props_slot::<C>(b, b0, 0, m[0]);
    let b1 = run_ops(b0, slot_ops::<C>(b, 0, m[0]));
    lemma_slot_ops::<C>(b, b1, 1, m[1]);
    lemma_props_slot::<C>(b, b1, 1, m[1]);
    let b2 = run_ops(b1, slot_ops::<C>(b, 1, m[1]));
    lemma_slot_ops::<C>(b, b2, 2, m[2]);
    lemma_props_slot::<C>(b, b2, 2, m[2]);
    let b3 = run_ops(b2, slot_ops::<C>(b, 2, m[2]));
    lemma_slot_ops::<C>(b, b3, 3, m[3]);
    lemma_props_slot::<C>(b, b3, 3, m[3]);
    let s0 = p + slot_ops::<C>(b, 0, m[0]);
    let s1 = s0 + slot_ops::<C>(b, 1, m[1]);
    let s2 = s1 + slot_ops::<C>(b, 2, m[2]);
    lemma_run_concat(b, p, slot_ops::<C>(b, 0, m[0]));
    lemma_run_concat(b, s0, slot_ops::<C>(b, 1, m[1]));
    lemma_run_concat(b, s1, slot_ops::<C>(b, 2, m[2]));
    lemma_props_concat(b, p, slot_ops::<C>(b, 0, m[0]));
    lemma_props_concat(b, s0, slot_ops::<C>(b, 1, m[1]));
    lemma_props_concat(b, s1, slot_ops::<C>(b, 2, m[2]));
    lemma_props_concat(b, s2, slot_ops::<C>(b, 3, m[3]));
}

/// The operations of one record keep all three properties, from the state
/// that the planner tracked before the record.
proof fn lemma_props_record<C>(b: Bound, r: Record<C>)
    requires
        b.materials.len() == 4,
    ensures
        draws_bound(b, record_ops(b, r)),
        switches_needed(b, record_ops(b, r)),
        complex_then_restore(record_ops(b, r)),
{
    match r {
        Record::Simple(rec) => {
            lemma_props_switch::<C>(b, rec);
            lemma_switch_ops::<C>(b, rec);
            let d = seq![DrawOp::<C>::Draw(rec)];
            let after = run_ops(b, switch_ops::<C>(b, rec));
            assert(d.take(0) =~= Seq::<DrawOp<C>>::empty());
            assert(binds_for(after, rec));
            assert(draws_bound(after, d));
            lemma_props_concat(b, switch_ops::<C>(b, rec), d);
        },
        Record::Complex(c) => {
            let x = seq![DrawOp::<C>::Complex(c), DrawOp::<C>::RestoreBuffers];
            assert(record_ops(b, r) =~= x);
        },
    }
}

/// Laws of the plan of `rs`:
/// every draw finds the pipeline and the materials that its key names bound;
/// no pipeline or bind-group switch binds what is bound already (so no switch
/// is wasted), and every bind-group switch binds a material at one of the
/// four slots; and after every complex command the shared buffers are bound
/// again.
pub proof fn lemma_plan_binds_what_each_draw_needs<C>(rs: Seq<Record<C>>)
    ensures
        draws_bound(nothing_bound(), plan_of(rs)),
        switches_needed(nothing_bound(), plan_of(rs)),
        complex_then_restore(plan_of(rs)),
    decreases rs.len(),
{
    if rs.len() == 0 {
        lemma_props_empty::<C>(nothing_bound());
    } else {
        lemma_plan_binds_what_each_draw_needs(rs.drop_last());
        lemma_plan_bound(rs.drop_last());
        let b = bound_after(rs.drop_last());
        lemma_props_record(b, rs.last());
        lemma_props_concat(nothing_bound(), plan_of(rs.drop_last()), record_ops(b, rs.last()));
    }
}

} // verus!
