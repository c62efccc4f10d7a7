use vstd::prelude::*;

verus! {

/// The `wgpu::ShaderStages` bit of the vertex stage.
pub const STAGE_VERTEX: u32 = 1u32;

/// The `wgpu::ShaderStages` bit of the fragment stage.
pub const STAGE_FRAGMENT: u32 = 2u32;

/// One entry of a bind group layout: a binding slot, the shader stages that
/// see it (`wgpu::ShaderStages` bits) and the kind of resource bound (`T`).
#[derive(Debug, Clone, Copy)]
pub struct BindGroupLayoutEntry<T> {
    pub binding: u32,
    pub visibility: u32,
    pub ty: T,
}

/// Builds a bind group layout entry: no stage sees the binding until it is
/// made visible to the vertex or the fragment stage.
pub struct BindGroupLayoutEntryBuilder<T> {
    binding: u32,
    visibility: u32,
    ty: T,
}

impl<T> BindGroupLayoutEntryBuilder<T> {
    pub closed spec fn spec_binding(&self) -> u32 {
        self.binding
    }

    pub closed spec fn spec_visibility(&self) -> u32 {
        self.visibility
    }

    pub closed spec fn spec_ty(&self) -> T {
        self.ty
    }

    /// An entry at `binding` for a resource of kind `ty`, visible to no stage.
    pub fn new(binding: u32, ty: T) -> (b: Self)
        ensures
            b.spec_binding() == binding,
            b.spec_visibility() == 0,
            b.spec_ty() == ty,
    {
        BindGroupLayoutEntryBuilder { binding, visibility: 0, ty }
    }

    /// Makes the binding visible to the vertex stage too.
    pub fn at_vertex(&mut self) -> (b: &mut Self)
        ensures
            b.spec_visibility() == old(self).spec_visibility() | STAGE_VERTEX,
            b.spec_binding() == old(self).spec_binding(),
            b.spec_ty() == old(self).spec_ty(),
            *final(self) == *final(b),
    {
        self.visibility = self.visibility | STAGE_VERTEX;
        self
    }

    /// Makes the binding visible to the fragment stage too.
    pub fn at_fragment(&mut self) -> (b: &mut Self)
        ensures
            b.spec_visibility() == old(self).spec_visibility() | STAGE_FRAGMENT,
            b.spec_binding() == old(self).spec_binding(),
            b.spec_ty() == old(self).spec_ty(),
            *final(self) == *final(b),
    {
        self.visibility = self.visibility | STAGE_FRAGMENT;
        self
    }
}

impl<T: Copy> BindGroupLayoutEntryBuilder<T> {
    /// The entry built so far.
    pub fn resolve(&self) -> (e: BindGroupLayoutEntry<T>)
        ensures
            e.binding == self.spec_binding(),
            e.visibility == self.spec_visibility(),
            e.ty == self.spec_ty(),
    {
        BindGroupLayoutEntry { binding: self.binding, visibility: self.visibility, ty: self.ty }
    }
}

/// Law: a stage made visible stays visible, whatever is made visible after;
/// and making the same stage visible twice changes nothing.
pub proof fn lemma_visibility_accumulates(v: u32)
    ensures
        (v | STAGE_VERTEX) & STAGE_VERTEX == STAGE_VERTEX,
        (v | STAGE_FRAGMENT) & STAGE_FRAGMENT == STAGE_FRAGMENT,
        ((v | STAGE_VERTEX) | STAGE_FRAGMENT) & STAGE_VERTEX == STAGE_VERTEX,
        ((v | STAGE_FRAGMENT) | STAGE_VERTEX) & STAGE_FRAGMENT == STAGE_FRAGMENT,
        (v | STAGE_VERTEX) | STAGE_VERTEX == v | STAGE_VERTEX,
        (v | STAGE_FRAGMENT) | STAGE_FRAGMENT == v | STAGE_FRAGMENT,
        (v | STAGE_VERTEX) | STAGE_FRAGMENT == (v | STAGE_FRAGMENT) | STAGE_VERTEX,
{
    assert((v | 1u32) & 1u32 == 1u32) by (bit_vector);
    assert((v | 2u32) & 2u32 == 2u32) by (bit_vector);
    assert(((v | 1u32) | 2u32) & 1u32 == 1u32) by (bit_vector);
    assert(((v | 2u32) | 1u32) & 2u32 == 2u32) by (bit_vector);
    assert((v | 1u32) | 1u32 == v | 1u32) by (bit_vector);
    assert((v | 2u32) | 2u32 == v | 2u32) by (bit_vector);
    assert((v | 1u32) | 2u32 == (v | 2u32) | 1u32) by (bit_vector);
}

} // verus!
