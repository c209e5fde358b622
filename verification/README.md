# fauxput

A command-line tool for managing virtual displays on Wayland: it creates a
`vkms` connector through configfs with an EDID built for the requested mode,
waits for the compositor to surface it, places it in the layout, and records
what it changed so that `down` and `reset` can undo it.

The logic is a Verus library, proved against its contracts:

- `src/edid.rs`, `src/edid/timing.rs`: CVT reduced-blanking timings in integer
  arithmetic and the 128-byte EDID base block.
- `src/compositor.rs`: output plans (enable, disable, primary) and their
  builder, compositor snapshots.
- `src/compositor/kde.rs`: the KWin output-device model, fed by protocol
  events, and the requests an output plan turns into.
- `src/compositor/mutter.rs`: the Mutter monitor model, the snapshot it
  gives, and the logical monitor configuration an output plan turns into.
- `src/backend/configfs_vkms.rs`: instance naming, the configfs operations
  that create and remove an instance, and their rollback.
- `src/state.rs`: the state file's records.
- `src/lifecycle.rs`: `up`, `down` and `reset` as state machines that name
  the next outside action and take its outcome back.

`app/` holds the executable around it: argument parsing, file and configfs
I/O, the Wayland connection, and the loops that run the lifecycle state
machines. The executable configures KWin only; the Mutter layout is
computed by the library, but no D-Bus connection to Mutter is made.
