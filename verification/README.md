# alea

A small 32-bit virtual machine and its tools, with the machine's logic
verified by Verus.

- `src/` is the verified library `alea_core`:
  - `isa`: registers, flags, instructions, the register file;
  - `encode`, `decode`: the 32-bit instruction encoding, and `roundtrip`,
    which proves that decoding gives back what encoding wrote;
  - `memory`: the `Memory` trait, byte buffers, mapped regions and the
    memory map;
  - `vcore`: the CPU. `step` is specified by a model of one instruction's
    effect, run over the memory that the devices' pre-step calls leave,
    with the words it writes stored and, when it completes, the devices'
    post-step calls applied; `cpu_laws` proves laws of that model and, for
    maps of plain buffers, of consecutive steps;
  - `console`: the console device and the device type of the machine;
  - `listing`: disassembly of a program image;
  - `assembly`: the text forms of a program (assembly lines and listing
    lines);
  - `text`: the display texts of words, flags, instructions and the register table;
  - `bytes_buf`: the contracts assumed of the `bytes` crate's buffer.
- `app/` holds the command-line front end: running a program, the
  assembler, the disassembler and the listing converter. It does the file
  and terminal I/O and the JSON/RON (de)serialisation.
- `tests/` exercises the library on concrete programs and texts.
