use vstd::prelude::*;

use crate::batch::{
    all_instances, all_indices, all_vertices, batch, index_total, instance_total, lemma_records_locate_commands,
    locates, padded, records_of, vertex_total, Record,
};
use crate::bytes::{index_bytes, u16_bytes};
use crate::frontend::Command;
use crate::order::sorted_by_key;
use crate::plan::{
    complex_then_restore, drawn, draws_bound, lemma_plan_binds_what_each_draw_needs,
    lemma_plan_draws_each_record_once, nothing_bound, plan_draws, plan_of, switches_needed, DrawOp,
};

verus! {

/// How frames are presented.
#[derive(Debug, Clone, Copy, PartialEq, Eq, Structural)]
pub enum PresentMode {
    /// Present at once, without waiting for the vertical blank.
    Immediate,
    /// Wait for the vertical blank.
    AutoVsync,
}

/// Why no texture could be had to draw a frame on.
#[derive(Debug, Clone, Copy, PartialEq, Eq, Structural)]
pub enum SurfaceError {
    Timeout,
    Outdated,
    Lost,
    OutOfMemory,
    Other,
}

/// What to do about a surface error.
#[derive(Debug, Clone, Copy, PartialEq, Eq, Structural)]
pub enum SurfaceAction {
    /// Skip this frame.
    Skip,
    /// Configure the surface again, and skip this frame.
    Reconfigure,
    /// Fail: the device is lost.
    Fail,
}

/// The keys that the engine reacts to.
#[derive(Debug, Clone, Copy, PartialEq, Eq, Structural)]
pub enum KeyCode {
    Escape,
    Other,
}

/// Picks the surface format to render to, among the formats that the surface
/// supports: the first sRGB one, else the first one.
pub fn choose_surface_format(srgb: &[bool]) -> (i: usize)
    requires
        srgb@.len() > 0,
    ensures
        i < srgb@.len(),
        srgb@[i as int] ==> forall|j: int| 0 <= j < i ==> !srgb@[j],
        !srgb@[i as int] ==> i == 0 && forall|j: int| 0 <= j < srgb@.len() ==> !srgb@[j],
{
    let mut i: usize = 0;
    while i < srgb.len()
        invariant
            i <= srgb@.len(),
            forall|j: int| 0 <= j < i ==> !srgb@[j],
        decreases srgb@.len() - i,
    {
        if srgb[i] {
            return i;
        }
        i = i + 1;
    }
    0
}

/// A frame, ready to be drawn: the contents of the shared vertex, index and
/// instance buffers, and the render-pass operations.
#[derive(Debug)]
pub struct Frame<V, C> {
    pub vertices: Vec<V>,
    /// The index buffer's bytes.
    pub index_bytes: Vec<u8>,
    pub instances: Vec<u8>,
    pub ops: Vec<DrawOp<C>>,
}

/// `f` draws the commands `s`, in the order of `s`.
pub open spec fn frame_draws<V, C>(f: Frame<V, C>, s: Seq<Command<V, C>>) -> bool {
    &&& f.vertices@ == all_vertices(s)
    &&& u16_bytes(f.index_bytes@, padded(all_indices(s)))
    &&& f.instances@ == all_instances(s)
    &&& f.ops@ == plan_of(records_of(s))
}

/// The bookkeeping of the renderer, as a value: the size and presentation
/// mode of the surface, whether it has been configured, and the next pipeline
/// and material ids to hand out.
pub struct StateView {
    pub width: u32,
    pub height: u32,
    pub present_mode: PresentMode,
    pub configured: bool,
    pub pipeline_index: u32,
    pub material_index: u32,
}

/// The bookkeeping of the renderer.
pub struct State {
    width: u32,
    height: u32,
    present_mode: PresentMode,
    is_surface_configured: bool,
    pipeline_index: u32,
    material_index: u32,
}

impl View for State {
    type V = StateView;

    closed spec fn view(&self) -> StateView {
        StateView {
            width: self.width,
            height: self.height,
            present_mode: self.present_mode,
            configured: self.is_surface_configured,
            pipeline_index: self.pipeline_index,
            material_index: self.material_index,
        }
    }
}

impl State {
    /// The state of a renderer whose window is `width` by `height`: the
    /// surface is not configured yet, frames are presented at once, and ids
    /// start at 0.
    pub fn new(width: u32, height: u32) -> (s: Self)
        ensures
            s@ == (StateView {
                width,
                height,
                present_mode: PresentMode::Immediate,
                configured: false,
                pipeline_index: 0,
                material_index: 0,
            }),
    {
        State {
            width,
            height,
            present_mode: PresentMode::Immediate,
            is_surface_configured: false,
            pipeline_index: 0,
            material_index: 0,
        }
    }

    pub fn width(&self) -> (w: u32)
        ensures
            w == self@.width,
    {
        self.width
    }

    pub fn height(&self) -> (h: u32)
        ensures
            h == self@.height,
    {
        self.height
    }

    pub fn present_mode(&self) -> (m: PresentMode)
        ensures
            m == self@.present_mode,
    {
        self.present_mode
    }

    pub fn is_surface_configured(&self) -> (c: bool)
        ensures
            c == self@.configured,
    {
        self.is_surface_configured
    }

    /// The pipeline id that `get_pipeline` hands out next.
    pub fn next_pipeline_id(&self) -> (id: u32)
        ensures
            id == self@.pipeline_index,
    {
        self.pipeline_index
    }

    /// The material id that `get_material` hands out next.
    pub fn next_material_id(&self) -> (id: u32)
        ensures
            id == self@.material_index,
    {
        self.material_index
    }

    /// Present frames in step with the display's vertical blank.
    pub fn enable_vsync(&mut self)
        ensures
            final(self)@ == (StateView { present_mode: PresentMode::AutoVsync, ..old(self)@ }),
    {
        self.present_mode = PresentMode::AutoVsync;
    }

    /// Present frames at once.
    pub fn disable_vsync(&mut self)
        ensures
            final(self)@ == (StateView { present_mode: PresentMode::Immediate, ..old(self)@ }),
    {
        self.present_mode = PresentMode::Immediate;
    }

    /// Takes a new window size. A size with a zero side is ignored; any other
    /// becomes the surface size, and the surface must then be configured with
    /// it, which this returns `true` for.
    pub fn resize(&mut self, width: u32, height: u32) -> (configure: bool)
        ensures
            configure == (width > 0 && height > 0),
            final(self)@ == (if configure {
                StateView { width, height, configured: true, ..old(self)@ }
            } else {
                old(self)@
            }),
    {
        if width > 0 && height > 0 {
            self.width = width;
            self.height = height;
            self.is_surface_configured = true;
            true
        } else {
            false
        }
    }

    /// Nothing to update between frames.
    pub fn update(&mut self)
        ensures
            final(self)@ == old(self)@,
    {
    }

    /// Whether a frame is drawn at all: only once the surface is configured.
    pub fn begin_frame(&self) -> (draw: bool)
        ensures
            draw == self@.configured,
    {
        self.is_surface_configured
    }

    /// What to do when no texture could be had for a frame: skip the frame
    /// on a timeout, out of memory or another error; configure the surface
    /// again (and skip the frame) when it is outdated; fail when it is lost.
    pub fn surface_error(&self, e: SurfaceError) -> (action: SurfaceAction)
        ensures
            action == (match e {
                SurfaceError::Outdated => SurfaceAction::Reconfigure,
                SurfaceError::Lost => SurfaceAction::Fail,
                _ => SurfaceAction::Skip,
            }),
    {
        match e {
            SurfaceError::Timeout | SurfaceError::OutOfMemory | SurfaceError::Other => SurfaceAction::Skip,
            SurfaceError::Outdated => SurfaceAction::Reconfigure,
            SurfaceError::Lost => SurfaceAction::Fail,
        }
    }

    /// Builds a frame from the commands: sorted by key, laid out one after
    /// the other in the shared buffers, and drawn with as few pipeline and
    /// bind-group switches as that order allows. The index count and the
    /// vertex count of all commands together must fit in a `u32`, as the
    /// draw calls address them, and their instance bytes must fit in one
    /// vector.
    pub fn render<V, C>(&self, commands: Vec<Command<V, C>>) -> (frame: Frame<V, C>)
        requires
            index_total(commands@) <= u32::MAX,
            vertex_total(commands@) <= u32::MAX,
            instance_total(commands@) <= isize::MAX,
        ensures
            exists|s: Seq<Command<V, C>>|
                {
                    &&& s.to_multiset() =~= commands@.to_multiset()
                    &&& sorted_by_key(s)
                    &&& frame_draws(frame, s)
                },
    {
        let b = batch(commands);
        let ghost s = choose|s: Seq<Command<V, C>>|
            {
                &&& s.to_multiset() =~= commands@.to_multiset()
                &&& sorted_by_key(s)
                &&& crate::batch::lays_out(b, s)
            };
        let bytes = index_bytes(&b.indices);
        let ops = plan_draws(b.records);
        let frame = Frame { vertices: b.vertices, index_bytes: bytes, instances: b.instances, ops };
        assert(frame_draws(frame, s));
        frame
    }

    /// Whether the key event ends the program: a press of Escape does.
    pub fn handle_key(&self, code: KeyCode, is_pressed: bool) -> (exit: bool)
        ensures
            exit == (code == KeyCode::Escape && is_pressed),
    {
        match code {
            KeyCode::Escape => is_pressed,
            KeyCode::Other => false,
        }
    }

    /// Hands out a fresh pipeline id: the ids count up from 0.
    pub fn get_pipeline(&mut self) -> (id: u32)
        requires
            old(self)@.pipeline_index < u32::MAX,
        ensures
            id == old(self)@.pipeline_index,
            final(self)@ == (StateView { pipeline_index: (id + 1) as u32, ..old(self)@ }),
    {
        let out = self.pipeline_index;
        self.pipeline_index = self.pipeline_index + 1;
        out
    }

    /// Hands out a fresh material id: the ids count up from 0.
    pub fn get_material(&mut self) -> (id: u32)
        requires
            old(self)@.material_index < u32::MAX,
        ensures
            id == old(self)@.material_index,
            final(self)@ == (StateView { material_index: (id + 1) as u32, ..old(self)@ }),
    {
        let out = self.material_index;
        self.material_index = self.material_index + 1;
        out
    }
}


/// Law: a frame built from the commands `s` draws each of them exactly once,
/// in the order of `s`: a simple command with its own indices, vertices and
/// instance bytes, and with the pipeline and the materials that its key names
/// bound; a complex command by itself, after which the shared buffers are
/// bound again. No pipeline or bind-group switch binds what is bound already,
/// and the index data is a whole number of 4-byte words.
pub proof fn lemma_frame_draws_each_command<V, C>(frame: Frame<V, C>, s: Seq<Command<V, C>>, k: int)
    requires
        frame_draws(frame, s),
        index_total(s) <= u32::MAX,
        vertex_total(s) <= u32::MAX,
        instance_total(s) <= isize::MAX,
        0 <= k < s.len(),
    ensures
        drawn(frame.ops@) == records_of(s),
        draws_bound(nothing_bound(), frame.ops@),
        switches_needed(nothing_bound(), frame.ops@),
        complex_then_restore(frame.ops@),
        frame.index_bytes@.len() % 4 == 0,
        match s[k] {
            Command::Simple(c) => records_of(s)[k] matches Record::Simple(r) && locates(
                r,
                c,
                frame.vertices@,
                padded(all_indices(s)),
                frame.instances@,
            ),
            Command::Complex(_, payload) => records_of(s)[k] == Record::<C>::Complex(payload),
        },
{
    lemma_plan_draws_each_record_once(records_of(s));
    lemma_plan_binds_what_each_draw_needs(records_of(s));
    lemma_records_locate_commands(s, k);
    let x = all_indices(s);
    crate::batch::lemma_padded(x);
    if let Command::Simple(c) = s[k] {
        if let Record::Simple(r) = records_of(s)[k] {
            assert(padded(x).subrange(r.index_begin as int, r.index_end as int) =~= x.subrange(
                r.index_begin as int,
                r.index_end as int,
            )) by {
                assert(padded(x).take(x.len() as int) == x);
                assert forall|j: int| r.index_begin <= j < r.index_end implies padded(x)[j] == x[j] by {
                    assert(padded(x).take(x.len() as int)[j] == padded(x)[j]);
                }
            }
        }
    }
}

} // verus!
