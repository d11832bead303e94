# cirrus

Symbolic execution of small machine-code programs as Boolean circuits, written
in Verus. A program's registers are words of wires; what the host knows of them
is kept beside the wires, and every operation is emitted through a Boolean
context that the caller supplies: plain bits, a recorder, a garbler.

The library states what each interpreter does over a mathematical model of its
machine, and proves that the wires that it emits mean that, on every context
whose wires have a meaning of their own. Where a program asks its host, the
model's answer is one that the caller's handler gave in that state.

## Layout

`src/` is the verified library.

- `context`, `bits`, `word`, `shift`, `arm_shift`, `compare`, `multiply`,
  `concrete`, `wide`: Boolean contexts, words of wires, and the circuits on them.
- `memory`, `storage`, `handler`, `callback`, `table`, `explore`: guest memory,
  symbolic storage, host calls, candidate tables, and the walk over an image.
- `thumb`: the Armv8-M Thumb machine, its decoder, its bodies and generations.
- `a64`: the AArch64 machine, its decoder, its bodies and generations.
- `rv`: the RV32 and RV64 machine, and its looped emulator.
- `recompile`: prepared programs lowered to AArch64, with a model of the
  processor that the emitted code runs on.
- `garble`, `vole`, `beaver`, `runtime`, `coroutine`, `saved`, `selftest`: what
  backends, guests and drivers share.

The laws that relate several functions are public proof functions: in
`thumb::laws`, `thumb::generation`, `a64::generation`, `rv::laws`,
`recompile::meaning`, and beside the functions that they speak of.

`tests/` runs the library. `app/` is ordinary Rust around it: context switches,
environment calls, instruction encoding, and the impls of outside traits.
