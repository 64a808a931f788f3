# strix

The verified core of strix, a terminal UI for staging changes, reviewing a
branch against its base, and leaving inline review comments that an agent can
read and resolve from the command line.

The library under `src/` is written in Verus: each public function carries a
contract, and the library's laws (what every operation keeps, what one call
undoes) stand as proof functions beside the code they speak of.

- `git/` — the parsers for git's plumbing output (`status --porcelain=v2`,
  `diff-tree --name-status`/`--numstat`), the line diff, the history model and
  the review-range grammar.
- `comments`, `comment_cli`, `session`, `submit` — the comments store: minting
  ids, garbage collection, re-anchoring notes against a changed diff, and the
  store transactions behind `strix comment` and the in-place editor.
- `editor`, `wrap` — the comment editor's buffer, caret and display columns,
  and the word wrap of comment bodies and of the editor box.
- `graph` — the commit graph's lane layout.
- `view`, `boxes`, `layout`, `sbs`, `cache`, `stream`, `panes`, `cycle`,
  `menu`, `routing` — the diff pane's rows, comment boxes, the unified and
  side-by-side layouts, the per-file section cache, cross-file scrolling,
  selection and pane arithmetic, comment cycling, the dropdown menus, and
  where a key press goes.
- `dispatch`, `pointer`, `note_keys`, `review_refresh` — what a keymap
  action does to the panes and their focus, the mouse (split bars, clicks,
  wheel, double clicks), the comment keys, and refreshing an open review.
- `config`, `keys`, `cli` — settings, the keymap with its overrides, and the
  command line.

`app/` is the `strix` program around the library: argument parsing, the
comments store on disk, and the calls to the `git` executable.
`tests/` exercise the library on concrete values.
