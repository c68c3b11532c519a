# skyengine

A verified library of the logic of an MRP application runtime: an ARM/Thumb
interpreter over a guest address space, the guest heap, the platform
services a guest calls, and the host-side rules around them (DNS mappings,
the control channel, packages in RAM). Each function is stated in
`requires`/`ensures` contracts and proved with Verus.

Layout of `src/`:

- `memory`, `cpu_model`, `cpu`, `push_pop`: the guest address space with its mappings
  and permissions, the ARM/Thumb instruction set over it, and the
  push/pop round trips.
- `heap`, `heap_io`, `heap_release`, `heap_reserve`, `heap_setup`: the guest
  heap's free list, as rules on blocks and as it lies in guest memory
  (reading, writing, allocating, releasing, reserving, and the first
  layout), with laws that tie these together.
- `output_claim`, `ownership`, `compact_output`, `rollback`: which module owns tracked
  memory, where a module's prepared output buffer lies, and what undoing a
  module's initialization gives back; `heap_free`: which way a free goes and
  the bookkeeping it drops.
- `address_space`, `runtime`, `runtime_dispatch`: the fixed mappings,
  platform table and empty heap a runtime starts from, the runtime's own
  state (exit, timer, motion, lifecycle), and one service trap over that
  state: the services the library runs, what the host must run handed back
  as a request, and a slot the platform lacks refused.
- `slots`, `guest_strings`, `layout`, `platform_commands`, `guest_run`: the
  platform table and data slots, guest strings, the address-space layout,
  the platform command tables and the stepping loop that runs guest code.
- `libc`, `libc_services`, `printf`, `md5`, `md5_service`, `graphics`,
  `bitmap_copy`, `jpeg`, `legacy_text`, `ram_package`, `http`, `config`,
  `control`, `parse`, `text`: the platform services and formats;
  `draw`: RGB565 bitmap regions drawn onto the screen in its four modes;
  `glyph`: a host character bitmap in the form guest code reads;
  `dispatch`: the service traps that need only memory and registers.

`app/` holds the command line, which checks its options and prints the
configuration it resolved, and the end-to-end control driver. Running a
package also needs the MRP package reader and the display back ends, which
are not part of this crate, so the command line does not execute one.
`tests/` holds the tests.
