# vrb

A runtime that coordinates Vulkan, HIP and the CPU on one machine: it probes backends, routes and
plans work by capability and measurement, loads plugins across a versioned C boundary, and shares
memory between devices. Work is submitted to the native runtimes; kernels live in operator plugins.

- `src/` is the library. All of it is verified with Verus: each function carries a contract over a
  mathematical model, and the laws of the library (what is read back after a write, what a cache
  keeps, which backend is chosen, what a plan costs) are public proof functions.
- `app/` is the program around it: the command line, dynamic libraries, the Vulkan and HIP calls,
  files and JSON.
- `tests/` runs the compiled library on concrete values.

Numbers in `src/float.rs` are IEEE 754 values by their bits, with addition, multiplication and
division rounded to nearest, ties to even; results are proved to be the correctly rounded ones.
Pointers and callbacks of plugin descriptors are addresses there, zero for none; `app/ffi.rs` holds
the structures that cross the boundary.

What is taken on trust is small: trimming, quoting and decoding text as the standard library does
(`src/text.rs`, `src/abi.rs`).
