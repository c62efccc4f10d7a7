use vstd::prelude::*;

verus! {

/// The value of a material slot that holds no material.
pub const NO_MATERIAL: u32 = 0xffff_ffffu32;

/// Aids in the sorting of `Command`s.
#[derive(Debug, PartialEq, Eq, PartialOrd, Ord, Clone, Copy, Hash)]
pub struct DrawKey {
    pub z_index: i32,
    /// The shader this object uses.
    /// Every different shader requires a different pipeline.
    pub pipeline_id: u32,
    /// Allows sorting by material, aka a bind group, for added efficiency.
    /// Can be `NO_MATERIAL` (`u32::MAX`) to represent nothing.
    /// Up to four materials may be used.
    pub material_ids: [u32; 4],
}

/// The material slot `i` of a key built from `groups`.
pub open spec fn group_slot(groups: Seq<u32>, i: int) -> u32 {
    if i < groups.len() {
        groups[i]
    } else {
        NO_MATERIAL
    }
}

/// Law: the slots of a key built from `groups` hold the groups in order, up to
/// four of them, and `NO_MATERIAL` where there is no group.
pub proof fn lemma_group_slots(groups: Seq<u32>)
    ensures
        forall|i: int| 0 <= i < 4 && i < groups.len() ==> #[trigger] group_slot(groups, i) == groups[i],
        forall|i: int| 0 <= i < 4 && groups.len() <= i ==> #[trigger] group_slot(groups, i) == NO_MATERIAL,
{
}

impl DrawKey {
    /// Create a new [`DrawKey`]. You may not use more than four groups:
    /// groups past the fourth are ignored, and slots without a group hold
    /// `NO_MATERIAL`.
    pub fn new(z_index: i32, pipeline_id: u32, groups: &[u32]) -> (key: Self)
        ensures
            key.z_index == z_index,
            key.pipeline_id == pipeline_id,
            forall|i: int| 0 <= i < 4 ==> #[trigger] key.material_ids[i] == group_slot(groups@, i),
            forall|i: int| 0 <= i < 4 && i < groups@.len() ==> #[trigger] key.material_ids[i] == groups@[i],
            forall|i: int| 0 <= i < 4 && groups@.len() <= i ==> #[trigger] key.material_ids[i] == NO_MATERIAL,
    {
        let mut bind_groups = [NO_MATERIAL; 4];
        let n = if groups.len() < 4 { groups.len() } else { 4 };
        let mut i: usize = 0;
        while i < n
            invariant
                n <= 4,
                n <= groups@.len(),
                n == 4 || n == groups@.len(),
                i <= n,
                forall|j: int| 0 <= j < i ==> #[trigger] bind_groups[j] == groups@[j],
                forall|j: int| i <= j < 4 ==> #[trigger] bind_groups[j] == NO_MATERIAL,
            decreases n - i,
        {
            bind_groups[i] = groups[i];
            i = i + 1;
        }
        DrawKey { z_index, pipeline_id, material_ids: bind_groups }
    }
}


/// The number of instances that a command with `len` bytes of instance data
/// and the given stride renders: one when the stride is zero, else the byte
/// count (taken modulo 2^32, as a `u32`) divided by the stride.
pub open spec fn instance_count(len: nat, stride: u32) -> u32 {
    if stride == 0 {
        1
    } else {
        ((len as u32) / stride) as u32
    }
}

/// Law: a command draws one instance when its stride is zero, and otherwise
/// as many whole instances of `stride` bytes as its instance data holds:
/// `n * stride <= len < (n + 1) * stride` (for data under 4 GiB, which the
/// count addresses as a `u32`).
pub proof fn lemma_instance_count(len: nat, stride: u32)
    ensures
        stride == 0 ==> instance_count(len, stride) == 1,
        stride > 0 && len < 0x1_0000_0000 ==> instance_count(len, stride) * stride <= len < (instance_count(len, stride) + 1) * stride,
        stride > 0 && len < 0x1_0000_0000 ==> instance_count(len, stride) == len / (stride as nat),
{
    if stride > 0 && len < 0x1_0000_0000 {
        let l = len as u32;
        assert(l == len);
        let n = l / stride;
        assert(n * stride <= l < (n + 1) * stride) by (nonlinear_arith)
            requires
                stride > 0,
                n == l / stride,
        ;
    }
}

/// Represents a set of similar instances. `V` is the vertex type.
#[derive(Debug)]
pub struct SimpleCommand<V> {
    /// Sorted by this key.
    pub key: DrawKey,
    /// The vertices for a single instance. The engine heavily relies on
    /// instancing: a shape is sent once, and per-instance parameters
    /// (position, scale, ...) are supplied in `instances`.
    pub vertices: Vec<V>,
    /// Typical indices, indexes the `vertices` vec.
    pub indices: Vec<u16>,
    /// Type-erased instance data.
    pub instances: Vec<u8>,
    /// Width of the data for a single instance, in bytes.
    pub stride: u32,
}

impl<V> SimpleCommand<V> {
    /// Gets the number of instances this command will render.
    pub fn instances(&self) -> (n: u32)
        ensures
            n == instance_count(self.instances@.len(), self.stride),
    {
        if self.stride == 0 {
            1
        } else {
            self.instances.len() as u32 / self.stride
        }
    }
}

/// A draw request: either a batch of instances drawn by the engine, or a
/// command that draws itself (`C`) and is ordered by the given key.
#[derive(Debug)]
pub enum Command<V, C> {
    Simple(SimpleCommand<V>),
    Complex(DrawKey, C),
}

impl<V, C> Command<V, C> {
    /// The key by which this command is ordered.
    pub open spec fn key_of(&self) -> DrawKey {
        match self {
            Command::Simple(cmd) => cmd.key,
            Command::Complex(key, _) => *key,
        }
    }

    pub fn key(&self) -> (key: DrawKey)
        ensures
            key == self.key_of(),
    {
        match self {
            Command::Simple(cmd) => cmd.key,
            Command::Complex(key, _) => *key,
        }
    }
}

} // verus!
