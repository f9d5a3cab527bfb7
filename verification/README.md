# limbo

The logic of a lightweight Minecraft limbo server, verified with Verus: the protocol
versions it speaks and the packets it reads, the connection lifecycle from handshake to
play, chat components in MiniMessage, legacy colour codes and per-version JSON or NBT, and
the version-dependent dimension codecs and registry tags.

- `src/` is the verified library. Every function carries a contract over a mathematical
  model of its data, and the properties that span functions stand there as proof
  functions named `lemma_*`. Colour gradients and the reduction of arbitrary colours
  to the sixteen named ones are computed in integer models of IEEE 754 double and single
  precision (`binary64`, `binary32`), rounding to nearest with ties to even. That these
  models agree bit for bit with the hardware's `f64` and `f32` is not proved: it is
  checked by `tests/float_parity.rs` and `tests/named_parity.rs`.
- `app/` holds what surrounds it: reading resource files and `/proc/self/statm`, the lock
  shared between connection tasks, and encoding the library's NBT trees with
  `valence_nbt`, which needs the float payloads the library keeps only as bit patterns
  turned back into floating-point numbers. Decoding the resources stays in the library.
- `tests/` exercises the library through its public interface.
