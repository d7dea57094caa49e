# enzim_ui

The logic of the Enzim desktop client, verified with Verus.

`src/` holds the rules of the client as a library. Text is modelled as a sequence of characters, a
stored document as a tree, and a dialogue with git or with a runtime as a function from the replies
so far to the next step.

- `text`, `lines`, `number`, `paths`, `order`, `json`: text, numbers, names in paths, stable sorting
  and JSON documents
- `columns`, `moves`, `board`, `panes`, `payload`, `layout_store`, `initial_layout`, `session`: the
  panes of the multi-chat view, how they move, and how the board is stored and comes back
- `threads`, `thread_rows`, `thread_list`: the threads in the sidebar
- `preview`, `diff`, `age`, `markdown`: previews of files, diffs and notes
- `restore`, `turns`, `rollback`: restoring files and chats to a checkpoint
- `git_status`, `git_flow`, `git_snapshot`: the git page
- `profiles`, `providers`, `login`, `skills_mcp`, `settings`, `theme`: the settings

`app/` holds the GTK views around the library. The program that embeds them hands in its database,
its runtimes and its chat through the traits in `app/host.rs`. The layouts
and style sheets that the views load stand in `extras/`.
