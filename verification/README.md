# triton

A verified library for the `triton` C/C++ project manager: the model of a
`triton.json` project (dependencies, components, links, scripts), the rules
that edit and validate it, and the CMake and vcpkg text that is generated
from it. Every function of the library carries a Verus contract and is
proved against it.

- `src/` — the library, checked by Verus: the model (`models`), text helpers
  (`text`), validation and naming rules (`util`), CMake generation
  (`cmake`), the commands on the model (`commands`), command-line parsing
  (`cli`) and tool planning (`tools`).
- `tests/` — tests that run the compiled library on concrete projects.
- `app/` — the command-line program around the library: argument parsing,
  files, processes and downloads; it hands the library plain values and
  acts on what comes back.
