use vstd::prelude::*;

use crate::frontend::{instance_count, Command, DrawKey, SimpleCommand};
use crate::order::{sort_by_key, sorted_by_key};

verus! {

broadcast use vstd::seq_lib::group_to_multiset_ensures;

// ---------------------------------------------------------------------------
// Sums over sequences
// ---------------------------------------------------------------------------

/// The sum of `f` over the elements of `s`.
pub open spec fn sum_of<A>(s: Seq<A>, f: spec_fn(A) -> nat) -> nat
    decreases s.len(),
{
    if s.len() == 0 {
        0
    } else {
        sum_of(s.drop_last(), f) + f(s.last())
    }
}

/// The sum over a prefix is at most the sum over the whole sequence.
pub proof fn lemma_sum_of_take<A>(s: Seq<A>, f: spec_fn(A) -> nat, k: int)
    requires
        0 <= k <= s.len(),
    ensures
        sum_of(s.take(k), f) <= sum_of(s, f),
    decreases s.len(),
{
    if k < s.len() {
        assert(s.take(k) =~= s.drop_last().take(k));
        lemma_sum_of_take(s.drop_last(), f, k);
    } else {
        assert(s.take(k) =~= s);
    }
}

/// Removing the element at `i` takes `f` of it off the sum.
pub proof fn lemma_sum_of_remove<A>(s: Seq<A>, f: spec_fn(A) -> nat, i: int)
    requires
        0 <= i < s.len(),
    ensures
        sum_of(s, f) == sum_of(s.remove(i), f) + f(s[i]),
    decreases s.len(),
{
    if i == s.len() - 1 {
        assert(s.remove(i) =~= s.drop_last());
    } else {
        assert(s.remove(i).drop_last() =~= s.drop_last().remove(i));
        assert(s.remove(i).last() == s.last());
        lemma_sum_of_remove(s.drop_last(), f, i);
    }
}

/// Sequences with the same elements (counted with multiplicity) have the same
/// sum.
pub proof fn lemma_sum_of_permutation<A>(s1: Seq<A>, s2: Seq<A>, f: spec_fn(A) -> nat)
    requires
        s1.to_multiset() =~= s2.to_multiset(),
    ensures
        sum_of(s1, f) == sum_of(s2, f),
    decreases s1.len(),
{
    if s1.len() == 0 {
        assert(s2.to_multiset().len() == 0);
        assert(s2.len() == 0);
    } else {
        let x = s1.last();
        assert(s1 =~= s1.drop_last().push(x));
        assert(s1.to_multiset().count(x) > 0);
        assert(s2.contains(x));
        let i = choose|i: int| 0 <= i < s2.len() && s2[i] == x;
        assert(s2.remove(i).to_multiset() =~= s2.to_multiset().remove(x));
        assert(s1.drop_last().to_multiset() =~= s1.to_multiset().remove(x));
        lemma_sum_of_permutation(s1.drop_last(), s2.remove(i), f);
        lemma_sum_of_remove(s2, f, i);
    }
}

// ---------------------------------------------------------------------------
// The content that commands contribute to the shared buffers
// ---------------------------------------------------------------------------

/// The vertices that a command contributes to the shared vertex buffer.
pub open spec fn cmd_vertices<V, C>(c: Command<V, C>) -> Seq<V> {
    match c {
        Command::Simple(s) => s.vertices@,
        Command::Complex(_, _) => Seq::empty(),
    }
}

/// The indices that a command contributes to the shared index buffer.
pub open spec fn cmd_indices<V, C>(c: Command<V, C>) -> Seq<u16> {
    match c {
        Command::Simple(s) => s.indices@,
        Command::Complex(_, _) => Seq::empty(),
    }
}

/// The instance bytes that a command contributes to the shared instance
/// buffer.
pub open spec fn cmd_instances<V, C>(c: Command<V, C>) -> Seq<u8> {
    match c {
        Command::Simple(s) => s.instances@,
        Command::Complex(_, _) => Seq::empty(),
    }
}

/// The vertices of the commands of `s`, one command after the other.
pub open spec fn all_vertices<V, C>(s: Seq<Command<V, C>>) -> Seq<V>
    decreases s.len(),
{
    if s.len() == 0 {
        Seq::empty()
    } else {
        all_vertices(s.drop_last()) + cmd_vertices(s.last())
    }
}

/// The indices of the commands of `s`, one command after the other.
pub open spec fn all_indices<V, C>(s: Seq<Command<V, C>>) -> Seq<u16>
    decreases s.len(),
{
    if s.len() == 0 {
        Seq::empty()
    } else {
        all_indices(s.drop_last()) + cmd_indices(s.last())
    }
}

/// The instance bytes of the commands of `s`, one command after the other.
pub open spec fn all_instances<V, C>(s: Seq<Command<V, C>>) -> Seq<u8>
    decreases s.len(),
{
    if s.len() == 0 {
        Seq::empty()
    } else {
        all_instances(s.drop_last()) + cmd_instances(s.last())
    }
}

pub open spec fn vertex_len<V, C>() -> spec_fn(Command<V, C>) -> nat {
    |c: Command<V, C>| cmd_vertices(c).len()
}

pub open spec fn index_len<V, C>() -> spec_fn(Command<V, C>) -> nat {
    |c: Command<V, C>| cmd_indices(c).len()
}

pub open spec fn instance_len<V, C>() -> spec_fn(Command<V, C>) -> nat {
    |c: Command<V, C>| cmd_instances(c).len()
}

pub proof fn lemma_all_lens<V, C>(s: Seq<Command<V, C>>)
    ensures
        all_vertices(s).len() == sum_of(s, vertex_len()),
        all_indices(s).len() == sum_of(s, index_len()),
        all_instances(s).len() == sum_of(s, instance_len()),
    decreases s.len(),
{
    if s.len() > 0 {
        lemma_all_lens(s.drop_last());
    }
}

/// The total number of vertices of the commands of `s`.
pub open spec fn vertex_total<V, C>(s: Seq<Command<V, C>>) -> nat {
    all_vertices(s).len()
}

/// The total number of indices of the commands of `s`.
pub open spec fn index_total<V, C>(s: Seq<Command<V, C>>) -> nat {
    all_indices(s).len()
}

/// The total number of instance bytes of the commands of `s`.
pub open spec fn instance_total<V, C>(s: Seq<Command<V, C>>) -> nat {
    all_instances(s).len()
}

/// Reordering commands changes none of their totals.
pub proof fn lemma_totals_permutation<V, C>(s1: Seq<Command<V, C>>, s2: Seq<Command<V, C>>)
    requires
        s1.to_multiset() =~= s2.to_multiset(),
    ensures
        vertex_total(s1) == vertex_total(s2),
        index_total(s1) == index_total(s2),
        instance_total(s1) == instance_total(s2),
{
    lemma_all_lens(s1);
    lemma_all_lens(s2);
    lemma_sum_of_permutation(s1, s2, vertex_len());
    lemma_sum_of_permutation(s1, s2, index_len());
    lemma_sum_of_permutation(s1, s2, instance_len());
}

/// The totals of a prefix are at most those of the whole sequence.
pub proof fn lemma_totals_take<V, C>(s: Seq<Command<V, C>>, k: int)
    requires
        0 <= k <= s.len(),
    ensures
        vertex_total(s.take(k)) <= vertex_total(s),
        index_total(s.take(k)) <= index_total(s),
        instance_total(s.take(k)) <= instance_total(s),
{
    lemma_all_lens(s);
    lemma_all_lens(s.take(k));
    lemma_sum_of_take(s, vertex_len(), k);
    lemma_sum_of_take(s, index_len(), k);
    lemma_sum_of_take(s, instance_len(), k);
}

// ---------------------------------------------------------------------------
// Records
// ---------------------------------------------------------------------------

/// Where the data of one simple command lies in the shared buffers.
#[derive(Debug, Clone, Copy, PartialEq, Eq)]
pub struct SimpleRecord {
    pub key: DrawKey,
    /// The command's indices are `indices[index_begin..index_end]`.
    pub index_begin: u32,
    pub index_end: u32,
    /// The position of the command's first vertex in the vertex buffer.
    pub vertex_begin: u32,
    /// The byte range of the instance buffer bound for the command; it holds
    /// the command's instance bytes, and is one byte long when there are none.
    pub instance_begin: u64,
    pub instance_end: u64,
    /// The number of instances drawn.
    pub num_instances: u32,
}

/// A command after batching: a simple command becomes a record of where its
/// data lies, a complex command is carried along.
#[derive(Debug, PartialEq, Eq)]
pub enum Record<C> {
    Simple(SimpleRecord),
    Complex(C),
}

/// The record of command `c` when the commands `before` precede it.
pub open spec fn record_of<V, C>(c: Command<V, C>, before: Seq<Command<V, C>>) -> Record<C> {
    match c {
        Command::Simple(s) => Record::Simple(
            SimpleRecord {
                key: s.key,
                index_begin: all_indices(before).len() as u32,
                index_end: (all_indices(before).len() + s.indices@.len()) as u32,
                vertex_begin: all_vertices(before).len() as u32,
                instance_begin: all_instances(before).len() as u64,
                instance_end: (all_instances(before).len() + if s.instances@.len() == 0 {
                    1
                } else {
                    s.instances@.len()
                }) as u64,
                num_instances: instance_count(s.instances@.len(), s.stride),
            },
        ),
        Command::Complex(_, payload) => Record::Complex(payload),
    }
}

/// The records of the commands of `s`, in order.
pub open spec fn records_of<V, C>(s: Seq<Command<V, C>>) -> Seq<Record<C>>
    decreases s.len(),
{
    if s.len() == 0 {
        Seq::empty()
    } else {
        records_of(s.drop_last()).push(record_of(s.last(), s.drop_last()))
    }
}

/// Indices padded with a zero to an even count, so that the index data is a
/// whole number of 4-byte words.
pub open spec fn padded(indices: Seq<u16>) -> Seq<u16> {
    if indices.len() % 2 == 1 {
        indices.push(0u16)
    } else {
        indices
    }
}

/// Law: padding keeps the indices in place and in order, and adds one zero
/// after them exactly when their count is odd.
pub proof fn lemma_padded(x: Seq<u16>)
    ensures
        padded(x).len() == x.len() + x.len() % 2,
        padded(x).len() % 2 == 0,
        padded(x).take(x.len() as int) == x,
        x.len() % 2 == 1 ==> padded(x)[x.len() as int] == 0,
{
    assert(padded(x).take(x.len() as int) =~= x);
}

/// The shared buffers and records built from a list of commands.
#[derive(Debug)]
pub struct Batch<V, C> {
    pub vertices: Vec<V>,
    pub indices: Vec<u16>,
    pub instances: Vec<u8>,
    pub records: Vec<Record<C>>,
}

/// `b` lays out the commands of `s`, in the order of `s`.
pub open spec fn lays_out<V, C>(b: Batch<V, C>, s: Seq<Command<V, C>>) -> bool {
    &&& b.vertices@ == all_vertices(s)
    &&& b.indices@ == padded(all_indices(s))
    &&& b.instances@ == all_instances(s)
    &&& b.records@ == records_of(s)
}

/// Sorts the commands by key and lays them out one after the other in shared
/// vertex, index and instance buffers. The index count and the vertex count of
/// all commands together must fit in a `u32`, as the draw calls address them,
/// and their instance bytes must fit in one vector.
pub fn batch<V, C>(commands: Vec<Command<V, C>>) -> (b: Batch<V, C>)
    requires
        index_total(commands@) <= u32::MAX,
        vertex_total(commands@) <= u32::MAX,
        instance_total(commands@) <= isize::MAX,
    ensures
        exists|s: Seq<Command<V, C>>|
            {
                &&& s.to_multiset() =~= commands@.to_multiset()
                &&& sorted_by_key(s)
                &&& lays_out(b, s)
            },
{
    let ghost input = commands@;
    let sorted = sort_by_key(commands);
    let ghost s = sorted@;
    proof {
        lemma_totals_permutation(input, s);
    }
    let mut vertices: Vec<V> = Vec::new();
    let mut indices: Vec<u16> = Vec::new();
    let mut instances: Vec<u8> = Vec::new();
    let mut records: Vec<Record<C>> = Vec::new();
    let mut vertex: u32 = 0;
    for command in it: sorted.into_iter()
        invariant
            it.seq() == s,
            index_total(s) <= u32::MAX,
            vertex_total(s) <= u32::MAX,
            instance_total(s) <= isize::MAX,
            vertices@ == all_vertices(s.take(it.index() as int)),
            indices@ == all_indices(s.take(it.index() as int)),
            instances@ == all_instances(s.take(it.index() as int)),
            records@ == records_of(s.take(it.index() as int)),
            vertex == vertices@.len(),
    {
        let ghost k = it.index() as int;
        proof {
            assert(s.take(k + 1).drop_last() =~= s.take(k));
            assert(s.take(k + 1).last() == s[k]);
            lemma_totals_take(s, k + 1);
        }
        match command {
            Command::Simple(cmd) => {
                let num_instances = cmd.instances();
                let SimpleCommand { key, vertices: mut vs, indices: mut is, instances: mut ins, stride: _ } = cmd;
                let begin = indices.len() as u32;
                let num_indices = is.len() as u32;
                let byte_begin = instances.len() as u64;
                let width = if ins.len() == 0 { 1 } else { ins.len() };
                let byte_end = byte_begin + width as u64;
                let num_vertices = vs.len() as u32;
                records.push(
                    Record::Simple(
                        SimpleRecord {
                            key,
                            index_begin: begin,
                            index_end: begin + num_indices,
                            vertex_begin: vertex,
                            instance_begin: byte_begin,
                            instance_end: byte_end,
                            num_instances,
                        },
                    ),
                );
                vertices.append(&mut vs);
                indices.append(&mut is);
                instances.append(&mut ins);
                vertex = vertex + num_vertices;
            },
            Command::Complex(_, payload) => {
                records.push(Record::Complex(payload));
            },
        }
    }
    proof {
        assert(s.take(s.len() as int) =~= s);
    }
    if indices.len() % 2 != 0 {
        indices.push(0);
    }
    let b = Batch { vertices, indices, instances, records };
    assert(lays_out(b, s));
    b
}


// ---------------------------------------------------------------------------
// The layout law
// ---------------------------------------------------------------------------

/// The record `r` locates the data of the simple command `c` in the shared
/// buffers: it carries the command's key and instance count, its index range
/// holds exactly the command's indices, the vertices from its first vertex on
/// are the command's vertices, and the instance bytes from its first instance
/// byte on are the command's instance bytes.
pub open spec fn locates<V>(
    r: SimpleRecord,
    c: SimpleCommand<V>,
    vertices: Seq<V>,
    indices: Seq<u16>,
    instances: Seq<u8>,
) -> bool {
    &&& r.key == c.key
    &&& r.num_instances == instance_count(c.instances@.len(), c.stride)
    &&& r.index_begin <= r.index_end <= indices.len()
    &&& indices.subrange(r.index_begin as int, r.index_end as int) == c.indices@
    &&& r.vertex_begin + c.vertices@.len() <= vertices.len()
    &&& vertices.subrange(r.vertex_begin as int, r.vertex_begin + c.vertices@.len()) == c.vertices@
    &&& r.instance_begin + c.instances@.len() <= instances.len()
    &&& instances.subrange(r.instance_begin as int, r.instance_begin + c.instances@.len()) == c.instances@
    &&& r.instance_end == r.instance_begin + if c.instances@.len() == 0 {
        1
    } else {
        c.instances@.len()
    }
}

proof fn lemma_records_len<V, C>(s: Seq<Command<V, C>>)
    ensures
        records_of(s).len() == s.len(),
    decreases s.len(),
{
    if s.len() > 0 {
        lemma_records_len(s.drop_last());
    }
}

proof fn lemma_records_index<V, C>(s: Seq<Command<V, C>>, k: int)
    requires
        0 <= k < s.len(),
    ensures
        records_of(s).len() == s.len(),
        records_of(s)[k] == record_of(s[k], s.take(k)),
    decreases s.len(),
{
    lemma_records_len(s);
    lemma_records_len(s.drop_last());
    if k < s.len() - 1 {
        assert(s.drop_last().take(k) =~= s.take(k));
        lemma_records_index(s.drop_last(), k);
    } else {
        assert(s.drop_last() =~= s.take(k));
        if k > 0 {
            lemma_records_index(s.drop_last(), k - 1);
        }
    }
}

proof fn lemma_all_prefix<V, C>(s: Seq<Command<V, C>>, m: int)
    requires
        0 <= m <= s.len(),
    ensures
        all_vertices(s.take(m)).len() <= all_vertices(s).len(),
        all_indices(s.take(m)).len() <= all_indices(s).len(),
        all_instances(s.take(m)).len() <= all_instances(s).len(),
        all_vertices(s).take(all_vertices(s.take(m)).len() as int) == all_vertices(s.take(m)),
        all_indices(s).take(all_indices(s.take(m)).len() as int) == all_indices(s.take(m)),
        all_instances(s).take(all_instances(s.take(m)).len() as int) == all_instances(s.take(m)),
    decreases s.len(),
{
    if m == s.len() {
        assert(s.take(m) =~= s);
        assert(all_vertices(s).take(all_vertices(s).len() as int) =~= all_vertices(s));
        assert(all_indices(s).take(all_indices(s).len() as int) =~= all_indices(s));
        assert(all_instances(s).take(all_instances(s).len() as int) =~= all_instances(s));
    } else {
        assert(s.take(m) =~= s.drop_last().take(m));
        lemma_all_prefix(s.drop_last(), m);
        let d = s.drop_last();
        assert(all_vertices(s).take(all_vertices(d.take(m)).len() as int) =~= all_vertices(d).take(
            all_vertices(d.take(m)).len() as int,
        ));
        assert(all_indices(s).take(all_indices(d.take(m)).len() as int) =~= all_indices(d).take(
            all_indices(d.take(m)).len() as int,
        ));
        assert(all_instances(s).take(all_instances(d.take(m)).len() as int) =~= all_instances(d).take(
            all_instances(d.take(m)).len() as int,
        ));
    }
}

/// Law: batching puts every command's data where its record says. For the
/// command at position `k` of the sorted commands `s`, the record at
/// position `k` is the command carried along if it is complex, and a record
/// that locates its data in the shared buffers if it is simple.
pub proof fn lemma_records_locate_commands<V, C>(s: Seq<Command<V, C>>, k: int)
    requires
        0 <= k < s.len(),
        index_total(s) <= u32::MAX,
        vertex_total(s) <= u32::MAX,
        instance_total(s) <= isize::MAX,
    ensures
        records_of(s).len() == s.len(),
        match s[k] {
            Command::Simple(c) => records_of(s)[k] matches Record::Simple(r) && locates(
                r,
                c,
                all_vertices(s),
                all_indices(s),
                all_instances(s),
            ),
            Command::Complex(_, payload) => records_of(s)[k] == Record::<C>::Complex(payload),
        },
{
    lemma_records_index(s, k);
    lemma_all_prefix(s, k);
    lemma_all_prefix(s, k + 1);
    let before = s.take(k);
    assert(s.take(k + 1).drop_last() =~= before);
    assert(s.take(k + 1).last() == s[k]);
    match s[k] {
        Command::Simple(c) => {
            let vs = all_vertices(s);
            let is = all_indices(s);
            let ins = all_instances(s);
            let vb = all_vertices(before).len() as int;
            let ib = all_indices(before).len() as int;
            let nb = all_instances(before).len() as int;
            assert(is.subrange(ib, ib + c.indices@.len()) =~= c.indices@) by {
                assert(is.take(ib + c.indices@.len()) == all_indices(before) + c.indices@);
                assert(is.subrange(ib, ib + c.indices@.len()) =~= is.take(ib + c.indices@.len()).subrange(ib, ib + c.indices@.len()));
            }
            assert(vs.subrange(vb, vb + c.vertices@.len()) =~= c.vertices@) by {
                assert(vs.take(vb + c.vertices@.len()) == all_vertices(before) + c.vertices@);
                assert(vs.subrange(vb, vb + c.vertices@.len()) =~= vs.take(vb + c.vertices@.len()).subrange(vb, vb + c.vertices@.len()));
            }
            assert(ins.subrange(nb, nb + c.instances@.len()) =~= c.instances@) by {
                assert(ins.take(nb + c.instances@.len()) == all_instances(before) + c.instances@);
                assert(ins.subrange(nb, nb + c.instances@.len()) =~= ins.take(nb + c.instances@.len()).subrange(nb, nb + c.instances@.len()));
            }
        },
        Command::Complex(_, _) => {},
    }
}

} // verus!
