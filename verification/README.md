# commentflow

The decisions of a comment-reflow tool for C, C++, Rust, POSIX shell and
assembly, as a library whose behaviour is stated in contracts and proved with
Verus.

- `src/rewrite.rs` edits a source by byte ranges. A plan may touch comments and
  the white space between them, and nothing else.
- `src/convert.rs` turns `//` runs into `/* */` blocks.
- `src/linekind.rs`, on top of `src/textline.rs`, tells prose from layout, line
  by line. `src/classify.rs` tells the form of a whole comment.
- `src/assembly.rs` finds the comments of an assembly source.
- `src/cli.rs`, `src/config.rs`, `src/batch.rs` and `src/diff.rs` hold what a
  run decides: arguments, settings, inputs, actions, exit status and the text of
  a diff.
- `src/text.rs`, `src/offsets.rs` and `src/parse.rs` are the vocabulary of the
  rest.
- `app/` is the command-line tool around the library: files, stdin, stdout.

Proof functions whose names begin with `law_` state what holds across functions.
What is taken on trust is marked where it stands: appending to a `String`, two
character classes of Unicode, and the line comparison of the `similar` crate.
