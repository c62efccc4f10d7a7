use vstd::prelude::*;

use crate::frontend::{Command, DrawKey};

verus! {

broadcast use vstd::seq_lib::group_to_multiset_ensures;

/// `a` comes no later than `b`: the lexicographic order on
/// (z_index, pipeline_id, material_ids[0..4]), the same order that the
/// derived `Ord` of `DrawKey` gives.
pub open spec fn key_le(a: DrawKey, b: DrawKey) -> bool {
    if a.z_index != b.z_index {
        a.z_index < b.z_index
    } else if a.pipeline_id != b.pipeline_id {
        a.pipeline_id < b.pipeline_id
    } else if a.material_ids[0] != b.material_ids[0] {
        a.material_ids[0] < b.material_ids[0]
    } else if a.material_ids[1] != b.material_ids[1] {
        a.material_ids[1] < b.material_ids[1]
    } else if a.material_ids[2] != b.material_ids[2] {
        a.material_ids[2] < b.material_ids[2]
    } else {
        a.material_ids[3] <= b.material_ids[3]
    }
}

/// The commands of `s` come in non-decreasing key order.
pub open spec fn sorted_by_key<V, C>(s: Seq<Command<V, C>>) -> bool {
    forall|i: int, j: int| 0 <= i < j < s.len() ==> key_le(#[trigger] s[i].key_of(), #[trigger] s[j].key_of())
}

/// Lexicographic order on sequences of integers: `x` is no later than `y`
/// when they agree up to the first place where they differ and `x` is
/// smaller there, or when `x` is a prefix of `y`.
pub open spec fn lex_le(x: Seq<int>, y: Seq<int>) -> bool
    decreases x.len(),
{
    if x.len() == 0 {
        true
    } else if y.len() == 0 {
        false
    } else if x[0] != y[0] {
        x[0] < y[0]
    } else {
        lex_le(x.drop_first(), y.drop_first())
    }
}

/// The fields of a key in the order in which the derived `Ord` of `DrawKey`
/// compares them.
pub open spec fn key_fields(k: DrawKey) -> Seq<int> {
    seq![
        k.z_index as int,
        k.pipeline_id as int,
        k.material_ids[0] as int,
        k.material_ids[1] as int,
        k.material_ids[2] as int,
        k.material_ids[3] as int,
    ]
}

/// Law: the key order is the lexicographic order of (z_index, pipeline_id,
/// material_ids[0], ..., material_ids[3]), the order of the derived `Ord`:
/// keys are grouped by z-index first, then by pipeline, then by materials.
pub proof fn lemma_key_order_is_lexicographic(a: DrawKey, b: DrawKey)
    ensures
        key_le(a, b) <==> lex_le(key_fields(a), key_fields(b)),
        a.z_index < b.z_index ==> key_le(a, b) && !key_le(b, a),
        a.z_index == b.z_index && a.pipeline_id < b.pipeline_id ==> key_le(a, b) && !key_le(b, a),
        key_le(a, b) || key_le(b, a),
{
    let x = key_fields(a);
    let y = key_fields(b);
    assert(x.drop_first() =~= seq![x[1], x[2], x[3], x[4], x[5]]);
    assert(y.drop_first() =~= seq![y[1], y[2], y[3], y[4], y[5]]);
    assert(x.drop_first().drop_first() =~= seq![x[2], x[3], x[4], x[5]]);
    assert(y.drop_first().drop_first() =~= seq![y[2], y[3], y[4], y[5]]);
    assert(x.drop_first().drop_first().drop_first() =~= seq![x[3], x[4], x[5]]);
    assert(y.drop_first().drop_first().drop_first() =~= seq![y[3], y[4], y[5]]);
    assert(x.drop_first().drop_first().drop_first().drop_first() =~= seq![x[4], x[5]]);
    assert(y.drop_first().drop_first().drop_first().drop_first() =~= seq![y[4], y[5]]);
    assert(x.drop_first().drop_first().drop_first().drop_first().drop_first() =~= seq![x[5]]);
    assert(y.drop_first().drop_first().drop_first().drop_first().drop_first() =~= seq![y[5]]);
    assert(seq![x[5]].drop_first() =~= Seq::<int>::empty());
    assert(seq![y[5]].drop_first() =~= Seq::<int>::empty());
    reveal_with_fuel(lex_le, 7);
}

/// Compares two keys in the order of `key_le`.
pub fn draw_key_le(a: &DrawKey, b: &DrawKey) -> (le: bool)
    ensures
        le == key_le(*a, *b),
{
    if a.z_index != b.z_index {
        a.z_index < b.z_index
    } else if a.pipeline_id != b.pipeline_id {
        a.pipeline_id < b.pipeline_id
    } else if a.material_ids[0] != b.material_ids[0] {
        a.material_ids[0] < b.material_ids[0]
    } else if a.material_ids[1] != b.material_ids[1] {
        a.material_ids[1] < b.material_ids[1]
    } else if a.material_ids[2] != b.material_ids[2] {
        a.material_ids[2] < b.material_ids[2]
    } else {
        a.material_ids[3] <= b.material_ids[3]
    }
}

/// Merges two key-sorted runs into one key-sorted run holding the commands
/// of both. Works from the back of both runs, so that it only moves values.
fn merge<V, C>(left: Vec<Command<V, C>>, right: Vec<Command<V, C>>) -> (out: Vec<Command<V, C>>)
    requires
        sorted_by_key(left@),
        sorted_by_key(right@),
    ensures
        out@.to_multiset() =~= left@.to_multiset().add(right@.to_multiset()),
        sorted_by_key(out@),
{
    let ghost l0 = left@;
    let ghost r0 = right@;
    let mut left = left;
    let mut right = right;
    // Descending run of the largest commands taken so far.
    let mut desc: Vec<Command<V, C>> = Vec::new();
    while left.len() > 0 || right.len() > 0
        invariant
            sorted_by_key(left@),
            sorted_by_key(right@),
            forall|i: int, j: int|
                0 <= i < j < desc@.len() ==> key_le(#[trigger] desc@[j].key_of(), #[trigger] desc@[i].key_of()),
            desc@.len() > 0 ==> forall|i: int|
                0 <= i < left@.len() ==> key_le(#[trigger] left@[i].key_of(), desc@.last().key_of()),
            desc@.len() > 0 ==> forall|i: int|
                0 <= i < right@.len() ==> key_le(#[trigger] right@[i].key_of(), desc@.last().key_of()),
            desc@.to_multiset().add(left@.to_multiset()).add(right@.to_multiset())
                =~= l0.to_multiset().add(r0.to_multiset()),
        decreases left@.len() + right@.len(),
    {
        let take_right = if left.len() == 0 {
            true
        } else if right.len() == 0 {
            false
        } else {
            let kl = left[left.len() - 1].key();
            let kr = right[right.len() - 1].key();
            draw_key_le(&kl, &kr)
        };
        let ghost lb = left@;
        let ghost rb = right@;
        let ghost db = desc@;
        if take_right {
            let c = right.pop().unwrap();
            proof {
                assert(rb =~= right@.push(c));
            }
            desc.push(c);
        } else {
            let c = left.pop().unwrap();
            proof {
                assert(lb =~= left@.push(c));
            }
            desc.push(c);
        }
        proof {
            assert(desc@ =~= db.push(desc@.last()));
        }
    }
    // Reverse the descending run into an ascending one.
    let ghost d0 = desc@;
    let mut out: Vec<Command<V, C>> = Vec::new();
    while desc.len() > 0
        invariant
            forall|i: int, j: int|
                0 <= i < j < desc@.len() ==> key_le(#[trigger] desc@[j].key_of(), #[trigger] desc@[i].key_of()),
            sorted_by_key(out@),
            out@.len() > 0 ==> forall|i: int|
                0 <= i < desc@.len() ==> key_le(out@.last().key_of(), #[trigger] desc@[i].key_of()),
            out@.to_multiset().add(desc@.to_multiset()) =~= d0.to_multiset(),
        decreases desc@.len(),
    {
        let ghost db = desc@;
        let ghost ob = out@;
        let c = desc.pop().unwrap();
        proof {
            assert(db =~= desc@.push(c));
        }
        out.push(c);
        proof {
            assert(out@ =~= ob.push(c));
        }
    }
    out
}

/// Sorts commands by key (`key_le`). Commands with equal keys may come in any
/// order.
pub fn sort_by_key<V, C>(commands: Vec<Command<V, C>>) -> (sorted: Vec<Command<V, C>>)
    ensures
        sorted@.to_multiset() =~= commands@.to_multiset(),
        sorted_by_key(sorted@),
    decreases commands@.len(),
{
    let mut commands = commands;
    if commands.len() <= 1 {
        return commands;
    }
    let ghost all = commands@;
    let mid = commands.len() / 2;
    let right = commands.split_off(mid);
    proof {
        assert(all =~= commands@ + right@);
        vstd::seq_lib::lemma_multiset_commutative(commands@, right@);
    }
    let left_sorted = sort_by_key(commands);
    let right_sorted = sort_by_key(right);
    merge(left_sorted, right_sorted)
}

} // verus!
