# remark

Terminal-first code review notes for Git repositories. Comments on files and lines are
kept in git notes, shown beside the diff, mirrored in a draft that any editor can open,
and collated into a prompt.

- `src/` is the library: reviews and their notes, the draft and how it is kept in step
  with the notes, the prompt, diffs and the rows they are shown in, the layout of the
  screen, keys and mouse, and what the language server answers. Functions state
  what they return, and Verus proves it. Functions named `law_...` state what holds of
  several of them together.
- `app/` is the program around it: the command line, the repository, the terminal, the
  clipboard and the language server's transport.
- `tests/` runs the library on examples.

What the library takes from other crates stands behind small functions marked
`external_body`, each with what is believed of the call: line diffs (`similar`), hashes
(`gix-hash`, `gix-object`), text widths (`unicode-width`), colours (`syntastica`),
Base64 (`base64`) and the parting of the screen (`ratatui`).
