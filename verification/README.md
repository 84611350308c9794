# rnidbg

A runtime for 64-bit ARM Android programs and libraries: it loads their images, links
them, serves their system calls, and schedules their threads. The logic is a Verus
library. Its public functions state what they do in `requires` and `ensures`, and the
statements are proved.

## Layout

- `src/backend.rs`: the guest machine, its registers and its pages.
- `src/elf.rs`, `src/memory/`: images, where they go, relocations, the stack, the first
  thread's data, and the stubs that trap into the host.
- `src/linux/`: modules and symbols, files and pipes, waiting, starting a program, and
  the system calls.
- `src/emulator/`: the state of a process, its tasks and how they wait.
- `src/android/`: the functions of the dynamic linker, the property service and other
  system libraries that the runtime stands in for.
- `src/cli.rs`: the command line.
- `src/outside.rs`: what is believed, without proof, of the collections, buffers and
  clocks of other crates. `src/text.rs` holds one more, the decoding of UTF-8.
- `app/`: the program around the library. It reads files and the environment, writes to
  the host's streams, and drives the processor core, which a build links in through
  `app/native.rs`.
- `tests/`: examples of all of it.

## Laws

Public proof functions whose names start with `law_` state what holds across functions:
a pipe gives back what was written, saving and restoring a task changes nothing, images
never overlap, a property that is found reads back, and so on.

## Replies

What the library cannot compute itself (whether a file is on the host, what a driver
read, what a resolver in the guest returned) comes in as an argument, so every contract
holds for every reply. Where a reply is needed first, a function says what to ask.
