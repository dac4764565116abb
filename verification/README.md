# la_inst

Examining the effects of LoongArch instructions and discovering undocumented
ones, with the decision logic verified in Verus.

- `src/` is the verified library: opcode-table matching, reading objdump's
  disassembly of one word, setting up and reading single-step probes,
  reporting changed registers, the expected behaviour of `x86settag`, and a
  model of the LBT scratch register instructions.
- `app/` is the command-line program around it: temporary files, objdump/as,
  `fork`/`ptrace`, inline assembly and progress bars.
- `tests/` runs the library on concrete values.

The fuzzer takes the binutils opcode table as a file of `value mask` pairs:
hexadecimal words, each optionally after `0x`, separated by white space.

On a LoongArch host, `la_inst scratch` and `la_inst jiscr` run the LBT
scratch register instructions on the CPU and compare what they do with the
library's model of them. A register change prints on one line, as in
`LBT 1: OLD=0x00007fffd2cd0c00 NEW=0x0000000000000000`.
