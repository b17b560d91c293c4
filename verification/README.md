# touchhle

The core of a high-level emulator for early iPhone OS apps, written in Rust and
verified with Verus.

- `src/` is the library. Every function in it states what it does, and the
  statements are proved.
- `tests/` runs the library on concrete values.
- `app/` is what surrounds the library: global state, floating-point
  arithmetic, drawing, and calls into drivers and the runtime.

## What is where

| Module | What it does |
| --- | --- |
| `mem` | The 32-bit address space of the guest: typed pointers, sparse storage, a first-fit allocator, a null page that reads as zeros and swallows writes, C strings. |
| `dyld`, `mach_o`, `libc` | Two-level symbol lookup with reexports, reference-counted library handles, `dlopen` and friends. |
| `environment` | Load order of binaries and classes, startup orientation, device family. |
| `trainer`, `trainer_ui` | Search for values, bulk edits that are previewed, checked as a whole and confirmed, and the panel for it. |
| `gles` | State of the fixed-function pipeline and what the shaders are told. |
| `frameworks` | Gradient layers, events, motion services. |
| `numeric`, `text` | Decimal and hexadecimal numbers, correctly rounded conversion to single-precision floats, text helpers. |

Laws that span several functions are public proof functions, most of them in
files called `laws.rs`.

Floating-point numbers are bit patterns in the library. What the standard
library is trusted for is declared in `src/text.rs` and `src/trainer.rs`.
