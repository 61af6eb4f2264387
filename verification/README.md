# risc_core

A Project Oberon RISC5 machine and its host tooling, written in Verus: every
function of the library carries a contract that Verus proves.

- `src/` — the verified library: the CPU (`risc`) with its software floating
  point (`fp`), the memory-mapped devices (`disk`, `clipboard`, `pclink`), the
  PS/2 keyboard encoding and input handling (`ps2`, `input`), framebuffer
  rendering (`render`), deterministic headless runs (`headless`), the shim
  (`shim`: its syscall ABI and the shim-mode run of an inner core), the
  disk-image build as a step function (`pipeline`), and the readers for Oberon files: disk images
  (`image`, `extract`), module headers and compile order (`resolve`),
  `AsciiCoder` archives (`ascii`), text conversion (`convert`) and command-line
  values (`cli`).
- `tests/` — tests of the library.
- `app/` — the program around it: the windowed emulator (winit + softbuffer),
  the headless runner, the host devices (disk file, raw serial line, PCLink
  directory, host clipboard), and the host tools as subcommands (among them
  `eo-shim`, which runs one Oberon command under the shim, and `build-image`,
  which performs the pipeline's steps). The boot ROM is not built in: the
  emulator takes one with `--rom`.
