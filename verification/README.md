# dcmfree

Reclaim disk space taken by orphan Windows container layers in
`C:\ProgramData\Microsoft\Windows\Containers\Layers`.

The library under `src/` holds the tool's logic with Verus contracts and
proofs: which directories are layers and how they are ordered, how a layer's
size and age are computed from what the filesystem reports, which layers Docker
still uses, which layers `clean` and the GUI may destroy and when, how the GUI's
list follows a destroy run, and the report, table and status lines built from
the layers. Fixed prompts and one-line messages (such as "Aborted.", the
`[y/N]` prompt, the dry-run notice and the GUI's message boxes) stay with the
code in `app/` that shows them.

- `time` — plain-value models of spans and instants.
- `text` — decimal and hexadecimal numerals, padding, whitespace trimming,
  ASCII case folding.
- `format` — byte counts (through `bytesize`) and coarse ages.
- `layers` — the layer model, enumeration order, aggregation, classification
  against Docker, selection of stale orphans.
- `docker` — reading `docker` output.
- `cli` — the subcommands' arguments, decisions and output lines.
- `gui` — the GUI's model and the text it shows.
- `errors`, `hcs`, `privileges`, `util` — errors and their messages, the
  outcome of `HcsDestroyLayer`, privilege errors, UTF-16 encoding.

`app/` is the Windows program around it: argument parsing, filesystem and
process I/O, the Win32 calls and the native GUI. `tests/` exercises the
library.
