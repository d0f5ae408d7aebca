# typstyle (verified core)

The layout logic of a Typst formatter, written in Verus and proved against
its contracts.

- `src/aligned.rs` — measuring rows of cells into an aligned grid and printing
  it; proofs that the `&` separators of every row line up and that rows fill
  the grid.
- `src/math_align.rs` — splitting an aligned math block into rows at line
  breaks and cells at align points.
- `src/table.rs` — which calls are laid out as tables (`table`, `grid`, and
  wrappers that a function hint names), their columns, and how
  their arguments fall into rows.
- `src/facts.rs` — function hints and how a call finds its hint.
- `src/config.rs`, `src/project.rs` — formatting options and the
  `typstyle.toml` text, parsed by `toml`, into options and function hints.
- `src/cli.rs` — the decisions of the command line.
- `src/text.rs` — line splitting, string comparison, and display width.
- `app/` — file and directory access, finding `typstyle.toml`, and conversion of
  `typst-syntax` trees, none of it verified.
