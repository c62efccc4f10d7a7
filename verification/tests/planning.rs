use keydraw::batch::{Record, SimpleRecord};
use keydraw::plan::{plan_draws, DrawOp};
use keydraw::DrawKey;

fn rec(key: DrawKey, n: u32) -> SimpleRecord {
    SimpleRecord {
        key,
        index_begin: n,
        index_end: n + 1,
        vertex_begin: 0,
        instance_begin: 0,
        instance_end: 1,
        num_instances: 1,
    }
}

#[test]
fn plan_skips_bindings_that_are_in_place() {
    let a = rec(DrawKey::new(0, 1, &[10]), 0);
    let b = rec(DrawKey::new(0, 1, &[10, 20]), 1);
    let c = rec(DrawKey::new(0, 2, &[11]), 2);
    let ops = plan_draws(vec![Record::<u8>::Simple(a), Record::Simple(b), Record::Simple(c)]);
    assert_eq!(
        ops,
        vec![
            DrawOp::SetPipeline(1),
            DrawOp::SetBindGroup(0, 10),
            DrawOp::Draw(a),
            DrawOp::SetBindGroup(1, 20),
            DrawOp::Draw(b),
            DrawOp::SetPipeline(2),
            DrawOp::SetBindGroup(0, 11),
            DrawOp::Draw(c),
        ]
    );
}

#[test]
fn plan_rebinds_everything_after_a_complex_command() {
    let a = rec(DrawKey::new(0, 1, &[10]), 0);
    let b = rec(DrawKey::new(0, 1, &[10]), 1);
    let ops = plan_draws(vec![Record::Simple(a), Record::Complex('c'), Record::Simple(b)]);
    assert_eq!(
        ops,
        vec![
            DrawOp::SetPipeline(1),
            DrawOp::SetBindGroup(0, 10),
            DrawOp::Draw(a),
            DrawOp::Complex('c'),
            DrawOp::RestoreBuffers,
            DrawOp::SetPipeline(1),
            DrawOp::SetBindGroup(0, 10),
            DrawOp::Draw(b),
        ]
    );
}

#[test]
fn plan_keeps_materials_of_slots_without_one() {
    let a = rec(DrawKey::new(0, 1, &[10, 20]), 0);
    let b = rec(DrawKey::new(0, 1, &[]), 1);
    let c = rec(DrawKey::new(0, 1, &[10, 20]), 2);
    let ops = plan_draws(vec![Record::<u8>::Simple(a), Record::Simple(b), Record::Simple(c)]);
    assert_eq!(
        ops,
        vec![
            DrawOp::SetPipeline(1),
            DrawOp::SetBindGroup(0, 10),
            DrawOp::SetBindGroup(1, 20),
            DrawOp::Draw(a),
            DrawOp::Draw(b),
            DrawOp::Draw(c),
        ]
    );
}

#[test]
fn plan_of_nothing_is_empty() {
    assert!(plan_draws(Vec::<Record<u8>>::new()).is_empty());
}

#[test]
fn plan_binds_all_four_slots() {
    let a = rec(DrawKey::new(0, 0, &[1, 2, 3, 4]), 0);
    let ops = plan_draws(vec![Record::<u8>::Simple(a)]);
    assert_eq!(
        ops,
        vec![
            DrawOp::SetPipeline(0),
            DrawOp::SetBindGroup(0, 1),
            DrawOp::SetBindGroup(1, 2),
            DrawOp::SetBindGroup(2, 3),
            DrawOp::SetBindGroup(3, 4),
            DrawOp::Draw(a),
        ]
    );
}
