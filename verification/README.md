# qd2

The decisions behind a viewer for QEMU D-Bus displays, verified with Verus.

- `src/cli.rs` and `src/layout_laws.rs`: the command line, and how the layout of a guest with
  several heads is read.
- `src/text.rs` and `src/numeral.rs`: trimming, splitting, and whole numbers as text.
- `src/bus.rs`: the object paths of the display objects. It calls `zbus` to make paths; what is
  believed of that call stands at `checked_object_path`.
- `src/viewer/head_map.rs` and `head_map_laws.rs`: where the heads sit in the guest's desktop, and
  how absolute pointer positions are mapped onto it.
- `src/viewer/remote.rs` and `input.rs`: one console, and what is sent to QEMU for an input event.
- `src/viewer/dmabuf.rs` and `damage.rs`: which part of a DMABUF is shown, how it is turned, which
  buffers can be imported, and what has to be redrawn.
- `src/viewer/grab.rs` and `cursor_scene.rs`: grabbing the input, and drawing the cursor.

What holds of all inputs is stated in the contracts and in the proof functions whose names begin
with `law_`. `app/` holds what talks to the bus and to GTK, and everything in floating point.
