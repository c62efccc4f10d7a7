use keydraw::order::draw_key_le;
use keydraw::{Command, DrawKey, SimpleCommand, NO_MATERIAL};

fn simple(key: DrawKey, instances: Vec<u8>, stride: u32) -> SimpleCommand<u32> {
    SimpleCommand { key, vertices: vec![], indices: vec![], instances, stride }
}

#[test]
fn draw_key_new_fills_unused_slots_with_no_material() {
    let k = DrawKey::new(-3, 7, &[5, 6]);
    assert_eq!(k.z_index, -3);
    assert_eq!(k.pipeline_id, 7);
    assert_eq!(k.material_ids, [5, 6, NO_MATERIAL, NO_MATERIAL]);
}

#[test]
fn draw_key_new_without_groups() {
    let k = DrawKey::new(0, 1, &[]);
    assert_eq!(k.material_ids, [u32::MAX; 4]);
}

#[test]
fn draw_key_new_ignores_groups_past_the_fourth() {
    let k = DrawKey::new(2, 3, &[1, 2, 3, 4, 5, 6]);
    assert_eq!(k.material_ids, [1, 2, 3, 4]);
}

#[test]
fn draw_key_order_matches_derived_ord() {
    let keys = [
        DrawKey::new(0, 0, &[]),
        DrawKey::new(-1, 5, &[1]),
        DrawKey::new(0, 1, &[]),
        DrawKey::new(0, 0, &[0]),
        DrawKey::new(0, 0, &[0, 1]),
        DrawKey::new(0, 0, &[0, 1, 2, 3]),
        DrawKey::new(0, 0, &[0, 1, 2, 4]),
        DrawKey::new(1, 0, &[]),
        DrawKey::new(i32::MIN, u32::MAX, &[7, 7, 7, 7]),
    ];
    for a in &keys {
        for b in &keys {
            assert_eq!(draw_key_le(a, b), a <= b, "{:?} {:?}", a, b);
        }
    }
}

#[test]
fn instances_with_zero_stride_is_one() {
    assert_eq!(simple(DrawKey::new(0, 0, &[]), vec![], 0).instances(), 1);
    assert_eq!(simple(DrawKey::new(0, 0, &[]), vec![1, 2, 3], 0).instances(), 1);
}

#[test]
fn instances_divides_bytes_by_stride() {
    let key = DrawKey::new(0, 0, &[]);
    assert_eq!(simple(key, vec![0; 64], 32).instances(), 2);
    assert_eq!(simple(key, vec![0; 70], 32).instances(), 2);
    assert_eq!(simple(key, vec![0; 31], 32).instances(), 0);
    assert_eq!(simple(key, vec![], 32).instances(), 0);
}

#[test]
fn command_key_of_each_kind() {
    let a = DrawKey::new(4, 2, &[9]);
    let b = DrawKey::new(-4, 1, &[]);
    let s: Command<u32, &str> = Command::Simple(simple(a, vec![], 0));
    let c: Command<u32, &str> = Command::Complex(b, "text");
    assert_eq!(s.key(), a);
    assert_eq!(c.key(), b);
}
