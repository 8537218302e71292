# fuc_engine

Copies files and directory trees. The library decides what to do, and is verified with
Verus; the crate under `app/` makes the system calls.

Every copy is a state machine: `request` names the next call to make, `advance` takes
what the call answered.

- `src/op.rs`: copy operations, and the run of one from its beginning to its outcome.
- `src/schedule.rs`: the way through the files of an operation.
- `src/linux/`: directories on Linux. `dir.rs` and `file.rs` copy one directory, `pool.rs`
  is what the threads do that work off the queue, `backend.rs` is what directories are
  handed over to.
- `src/portable/`: directories on other platforms.
- `src/tree.rs`: what a faithful copy of a tree is.
- `src/error.rs`, `src/file_type.rs`, `src/file_id.rs`, `src/c_path.rs`, `src/os_path.rs`,
  `src/platform.rs`: errors, file types, what identifies a file, paths and platforms.

The laws:

- `src/schedule_laws.rs`: the way through the files of an operation.
- `src/order_laws.rs`, `src/disk_laws.rs`: the order of files that are apart does not show,
  in any world and in a file system seen as the objects at its paths.
  `src/linux/order_laws.rs`: the same of whole operations on Linux, with the threads that
  copy directories.
- `src/run_laws.rs`: whole operations, from their beginning to the changes that are made.
- `src/tree_laws.rs`: the image of a tree.
- `src/linux/laws.rs`, `src/linux/tree_laws.rs`: the copy of one directory and of a whole
  tree. `src/linux/pool.rs`, `src/linux/crew_laws.rs`: the threads, and what they copy
  together.
- `src/portable/laws.rs`: directories on other platforms.
