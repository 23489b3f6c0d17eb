# ir

`ir` runs self-describing R scripts: the packages and the R version a script
needs are declared in `#| ` YAML frontmatter at its top (or under an `ir:` key
in a Quarto document's metadata block), under `packages` (or
`dependencies`), `r-version`, `exclude-newer` and `isolated`. `ir` resolves
them into a cached library before starting R.

This crate is written in Verus. The library in `src/` holds the logic, each
function with a contract that Verus proves:

- `cli` — the `ir run`, `ir tool run` and `ir cache` command lines;
- `script`, `frontmatter` — reading frontmatter from R scripts and Quarto
  documents, and interpreting it as a runtime spec;
- `init` — checking a script for `ir init` and writing its frontmatter;
  `readback` proves that the `#| ` lines it writes are exactly the
  frontmatter text a run reads back from the script;
- `rig` — parsing `r-version` requirements, ranking installed and available R
  versions, and choosing what to install;
- `runner`, `launch`, `driver`, `lock`, `rx` — the commands that run the
  resolver, scripts, Quarto documents and package executables, and the
  messages for their failures;
- `text`, `paths` — the string and path operations the rest is built on.

Public proof functions named `law_*` state the properties that hold across
calls (orderings, selection, round trips). The program in `app/` reads
arguments, files and processes and hands the library plain values.
