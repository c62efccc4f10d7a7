# keydraw

A small instanced rendering engine on `wgpu` and `winit`, split in two:

- `src/` is the verified core (Verus). It decides everything that can be
  decided without a GPU: draw keys and their order, the sorting of commands,
  the batching of all simple commands of a frame into shared vertex, index
  and instance buffers, the plan of render-pass operations (pipeline and
  bind-group switches only where something else is bound, one draw per simple
  command, complex commands drawing themselves), the growth of the dynamic
  GPU buffers, the renderer's bookkeeping (surface size and configuration,
  present mode, surface errors, pipeline and material ids) and the visibility
  of bind group layout entries.
  - `frontend.rs`: `DrawKey`, `SimpleCommand`, `Command`.
  - `order.rs`: the key order and a merge sort of commands.
  - `batch.rs`: batching, and the law that each record locates its command.
  - `plan.rs`: the draw plan, and its laws.
  - `buffer.rs`: the growth policy of dynamic buffers.
  - `bytes.rs`: the bytes of the index buffer.
  - `builders.rs`: bind group layout entries.
  - `state.rs`: the renderer's state and frames, and the law that a frame
    draws each command once.
- `app/` opens the window, owns the device, surface, buffers, pipelines and
  bind groups, and carries out what the core decides.
- `tests/` runs the core on concrete values.
