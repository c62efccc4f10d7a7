use keydraw::batch::{batch, Record, SimpleRecord};
use keydraw::order::sort_by_key;
use keydraw::{Command, DrawKey, SimpleCommand};

type Cmd = Command<char, &'static str>;

fn simple(key: DrawKey, vertices: Vec<char>, indices: Vec<u16>, instances: Vec<u8>, stride: u32) -> Cmd {
    Command::Simple(SimpleCommand { key, vertices, indices, instances, stride })
}

#[test]
fn sort_by_key_orders_and_keeps_commands() {
    let cmds: Vec<Cmd> = vec![
        Command::Complex(DrawKey::new(3, 0, &[]), "c"),
        Command::Complex(DrawKey::new(-2, 0, &[]), "a"),
        Command::Complex(DrawKey::new(1, 5, &[]), "b2"),
        Command::Complex(DrawKey::new(1, 4, &[]), "b1"),
        Command::Complex(DrawKey::new(9, 0, &[]), "d"),
    ];
    let sorted = sort_by_key(cmds);
    let names: Vec<&str> = sorted
        .iter()
        .map(|c| match c {
            Command::Complex(_, n) => *n,
            Command::Simple(_) => unreachable!(),
        })
        .collect();
    assert_eq!(names, vec!["a", "b1", "b2", "c", "d"]);
}

#[test]
fn sort_by_key_of_nothing() {
    let sorted = sort_by_key(Vec::<Cmd>::new());
    assert!(sorted.is_empty());
}

#[test]
fn batch_lays_out_commands_in_key_order() {
    let late = DrawKey::new(1, 0, &[0]);
    let early = DrawKey::new(0, 0, &[0]);
    let mid = DrawKey::new(0, 3, &[]);
    let cmds = vec![
        simple(late, vec!['x', 'y', 'z'], vec![0, 1, 2], vec![1, 2, 3, 4], 4),
        Command::Complex(mid, "text"),
        simple(early, vec!['a', 'b', 'c', 'd'], vec![0, 2, 3, 0, 3, 1], vec![], 0),
    ];
    let b = batch(cmds);
    assert_eq!(b.vertices, vec!['a', 'b', 'c', 'd', 'x', 'y', 'z']);
    // Nine indices are padded to ten.
    assert_eq!(b.indices, vec![0, 2, 3, 0, 3, 1, 0, 1, 2, 0]);
    assert_eq!(b.instances, vec![1, 2, 3, 4]);
    assert_eq!(
        b.records,
        vec![
            Record::Simple(SimpleRecord {
                key: early,
                index_begin: 0,
                index_end: 6,
                vertex_begin: 0,
                instance_begin: 0,
                instance_end: 1,
                num_instances: 1,
            }),
            Record::Complex("text"),
            Record::Simple(SimpleRecord {
                key: late,
                index_begin: 6,
                index_end: 9,
                vertex_begin: 4,
                instance_begin: 0,
                instance_end: 4,
                num_instances: 1,
            }),
        ]
    );
}

#[test]
fn batch_even_index_count_is_not_padded() {
    let k = DrawKey::new(0, 0, &[]);
    let b = batch(vec![simple(k, vec!['a'], vec![0, 0], vec![], 0)]);
    assert_eq!(b.indices, vec![0, 0]);
}

#[test]
fn batch_of_nothing_is_empty() {
    let b = batch(Vec::<Cmd>::new());
    assert!(b.vertices.is_empty());
    assert!(b.indices.is_empty());
    assert!(b.instances.is_empty());
    assert!(b.records.is_empty());
}

#[test]
fn batch_instance_ranges_follow_each_other() {
    let k0 = DrawKey::new(0, 0, &[]);
    let k1 = DrawKey::new(0, 1, &[]);
    let b = batch(vec![
        simple(k1, vec![], vec![], vec![9; 16], 8),
        simple(k0, vec![], vec![], vec![7; 24], 8),
    ]);
    match (&b.records[0], &b.records[1]) {
        (Record::Simple(r0), Record::Simple(r1)) => {
            assert_eq!((r0.instance_begin, r0.instance_end, r0.num_instances), (0, 24, 3));
            assert_eq!((r1.instance_begin, r1.instance_end, r1.num_instances), (24, 40, 2));
        }
        _ => panic!("expected simple records"),
    }
    assert_eq!(&b.instances[..24], &[7; 24][..]);
    assert_eq!(&b.instances[24..], &[9; 16][..]);
}
