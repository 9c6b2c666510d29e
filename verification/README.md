# litephoton

A fast text scanner: it reads a file or standard input, splits it into
lines, and prints the lines that contain a keyword, or the parts of lines
that a regular expression matches.

- `src/` is the library, verified with Verus: line splitting (`lines`),
  assembling lines from input read in chunks (`stream`), cutting a mapped
  file into chunks for parallel workers (`chunks`), matching (`matching`),
  the printing routines (`input::print_input`), the line readers
  (`read_util`) and the scanners (`scan`).  Each routine returns the bytes
  it writes, and its contract states them exactly; the proof functions
  named `law_*` state how the routines relate (streamed input reads as the
  whole input, splitting and chunking find what a sequential pass finds).
- `app/` is the command around it: options (clap), logging (env_logger),
  reading standard input, mapping files (memmap2), running workers on
  rayon or standard-library threads, and writing standard output.
- `tests/` runs the library on concrete inputs.
