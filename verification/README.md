# txmerge

A terminal side-by-side diff and three-way merge tool. The library in
`src/` holds its logic, verified with Verus:

- `text`, `sequence_diff`, `layout`, `engine`: line buffers, the line and
  character diffs (computed by `similar`) and the two-way diff view built
  from them.
- `three_way`, `block_copy`: the three-way merge view and copying blocks
  between panes.
- `tab`, `app`: the state of each tab (editing, undo and redo, navigation)
  and of the application.
- `events`: what each key, menu item and click does, with the file-system
  work it leaves to the caller.
- `view`, `menu`, `tab_bar`: what the screen shows and what a click hits.
- `file_browser`, `dir_compare`, `git_diff`: the file dialog, directory
  comparison and comparison of git revisions.
- `laws`: properties that span several operations.

`app/` is the terminal program around it: arguments, ratatui drawing,
crossterm input and the file system.
