# gitnum

A small `git` companion: `gitnum status` lists the staged, unstaged and
untracked files with a number in front of each, and `gitnum add 0 3-5`
(likewise `diff`, `reset`, `checkout`, `stash`) runs `git` with those numbers
replaced by the paths they stand for. `gitnum branch` lists the branches,
numbered, with the current one marked.

The library under `src/` is written in Verus and verified:

- `status.rs` parses `git status --porcelain` output; `sort.rs` sorts entries
  by path, stably; `order.rs` is the path order.
- `branch.rs` parses `git branch -v` output.
- `args.rs` replaces number and range arguments; `command.rs` builds the
  argument lists `git` is run with.
- `display.rs` lays out the numbered listings; `paint.rs` renders coloured
  pieces of text through the `colored` crate.
- `text.rs` and `number.rs` hold the character-level text handling (lines,
  trimming) and decimal numerals (writing and parsing).
- `laws.rs` states and proves what holds across functions, chiefly that the
  number shown next to an entry is the number that selects it.

`app/main.rs` is the command line: argument parsing with `clap`, running
`git`, printing.
