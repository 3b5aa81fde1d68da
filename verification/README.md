# diffview

A side-by-side viewer for unified `git diff` output, written in Verus.

The library under `src/` holds everything the viewer computes, each
function with a contract that Verus checks:

- `text`: lines, whitespace, trimming, words and decimal numbers over
  character sequences;
- `diff`: the diff model and its line-by-line parser, with the laws that
  line numbers count up from each hunk header and that each file's largest
  line numbers are the largest its lines carry;
- `render`: tab expansion, wrapping to a width, and the two columns of rows
  of a file, with laws on wrapping (nothing lost, no empty segment of a
  non-empty text, every segment fits), on tab stops and on hunk starts;
- `app`: the viewer's state (file, scroll position, untracked files, layout
  cache) and its navigation;
- `keys`, `ui`, `layout`, `input`, `cli`, `theme`: key bindings, the text and
  colours of what is drawn, the screen layout (ratatui's solver places the
  parts; the library states what holds wherever it places them), the `git`
  commands and the command line.

`app/` is the terminal program around it: argument parsing with clap,
reading standard input, files and `git`, and drawing with ratatui and
crossterm. `tests/` exercises the library on concrete diffs.
