# gitshot

Renders `git diff` and `git status` as PNG images, for sharing changes where text output
is hard to read.

- `src/` is the library, verified with Verus: turning git's patch lines and status bits
  into diff lines and status entries, the token-level and character-level inline
  highlighting of changed lines (with the longest-common-subsequence proofs behind it),
  the pairing of deleted with added lines, the row plan of each image, the colour
  schemes, and the output file name.
- `app/` is the program around it: command-line parsing, the configuration file, git
  access, font measuring and drawing, and writing the PNG.
- `tests/` runs the library on concrete inputs.

Usage: `gitshot diff [-w] [-o FILE] [PATHS...]` and `gitshot status [-o FILE] [PATHS...]`.
The colour scheme, font and sizes are read from `~/.config/gitshot/gitshot.toml`.
