# wimlib_kit

A Windows image tool (`imgtool`) built on wimlib: inspect, verify, extract,
convert, capture, split and join WIM / ESD / SWM images. Extraction,
integrity checks and every command that writes an image show a progress bar.

The crate is split in two:

- `src/` is a library verified with Verus. It holds every decision the tool
  makes: reading arguments (`parse`), Windows path handling, split-image naming and
  where the library file is looked for (`paths`),
  UTF-16 strings for wimlib (`wide`), byte-size and decimal text (`util`),
  code-point order and sorting (`order`), progress-bar decisions
  (`progress`), wimlib's records and constants (`types`), the error type
  (`error`), and each command's plan and printed lines (`cli`).
- `app/` is the program around it: loading `libwim-15.dll` (beside the
  program, then in the current directory, then by the system's search) with
  libloading, the raw FFI calls, the indicatif progress bar, clap argument
  parsing, and printing.

Exit status: `0` on success, `2` for a corrupt image, `1` for other errors.
