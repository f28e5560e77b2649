# unemups4

The core of an emulator for a game console: what its graphics side and its kernel decide,
written in Verus and proved.

- `src/gpu/` turns the guest's command lists into device work: which resources are made and
  freed, which passes are recorded and in which layout each image is, what is presented and
  when a waiting guest call is answered, how pictures are read back, packed, and written.
- `src/kernel/` is the guest's process: its files and mounts, locks and conditions, direct
  memory, modules, thread-local keys, and the stubs that its system calls enter by.
- `src/table.rs`, `src/text.rs`, `src/bytes.rs` and `src/arith.rs` are what both build on.
- `tests/` runs the library on concrete values.
- `app/` is ordinary Rust around it: the Vulkan device, the window, the gamepad, the host's
  files and threads, and the tools.

The library plans and the application performs.  A plan is a list of steps, each of which is
one device command or one host call; what came of it is handed back as a plain value.
Numbers with a fraction are held by their bits.  Functions whose names begin with `law_`
state what holds of the library as a whole.
