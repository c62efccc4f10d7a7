use keydraw::buffer::{next_power_of_two_u64, DynBuffer, INITIAL_CAPACITY};
use keydraw::bytes::index_bytes;

#[test]
fn next_power_of_two_values() {
    assert_eq!(next_power_of_two_u64(0), 1);
    assert_eq!(next_power_of_two_u64(1), 1);
    assert_eq!(next_power_of_two_u64(2), 2);
    assert_eq!(next_power_of_two_u64(3), 4);
    assert_eq!(next_power_of_two_u64(1025), 2048);
    assert_eq!(next_power_of_two_u64(4096), 4096);
    assert_eq!(next_power_of_two_u64(1 << 63), 1 << 63);
    for n in 1..5000u64 {
        assert_eq!(next_power_of_two_u64(n), n.next_power_of_two());
    }
}

#[test]
fn dyn_buffer_starts_at_initial_capacity() {
    let b = DynBuffer::new(40, "MegaVert Buffer");
    assert_eq!(b.capacity(), INITIAL_CAPACITY);
    assert_eq!(b.capacity(), 2048);
    assert_eq!(b.usage(), 40);
    assert_eq!(b.label(), "MegaVert Buffer");
}

#[test]
fn dyn_buffer_keeps_capacity_when_data_fits() {
    let mut b = DynBuffer::new(0, "b");
    assert_eq!(b.write_data(0), None);
    assert_eq!(b.write_data(2048), None);
    assert_eq!(b.capacity(), 2048);
}

#[test]
fn dyn_buffer_grows_to_next_power_of_two() {
    let mut b = DynBuffer::new(0, "b");
    assert_eq!(b.write_data(2049), Some(4096));
    assert_eq!(b.write_data(3000), None);
    assert_eq!(b.write_data(10_000), Some(16384));
    assert_eq!(b.capacity(), 16384);
    assert_eq!(b.write_data(16385), Some(32768));
    assert_eq!(b.label(), "b");
}

#[test]
fn dyn_buffer_grows_to_the_largest_size() {
    let mut b = DynBuffer::new(0, "b");
    assert_eq!(b.write_data(1 << 63), Some(1 << 63));
    assert_eq!(b.write_data(1 << 63), None);
}

#[test]
fn index_bytes_are_the_indices_in_memory() {
    let idx: Vec<u16> = vec![1, 0x0203, 0xfffe];
    let bytes = index_bytes(&idx);
    let mut expected = Vec::new();
    for i in &idx {
        expected.extend_from_slice(&i.to_ne_bytes());
    }
    assert_eq!(bytes, expected);
    assert_eq!(bytes.len(), 6);
}

#[test]
fn index_bytes_of_nothing() {
    assert!(index_bytes(&vec![]).is_empty());
}
