# sound_fx

A desktop library of sound effects: folders, tags, search, imports of audio
files and folders, and an editor with a multi-track trim timeline.

The logic of the library is written in Verus and proved against its
contracts:

- `src/text.rs`: ASCII case folding, Unicode trimming and substring search on
  character sequences.
- `src/model.rs`: the application state (`SoundFxApp`) and its records.
- `src/folders.rs`: the folder forest, branch computation, counts, sorted
  listings and the filtered sound and video lists.
- `src/tags.rs`: tag parsing, joining, tag filters and the tag editor.
- `src/tree.rs`: folder creation and deletion and the folder-tree actions.
- `src/editor.rs`: selection, undo history, the trim timeline state, its
  undo and redo, row and clip edits and clip deletions.
- `src/importing.rs`: import planning for files and directory trees, and
  carrying a plan out into folder and sound records with progress reports.
- `src/jobs.rs`: handling of background job results.
- `src/drops.rs`: what files dropped on the window become.
- `src/naming.rs`: default sound names and the preview filter.
- `src/duplicates.rs`: the list of duplicate pairs after the panel's actions.
- `src/laws.rs`: properties that span several operations.

`app/` is the egui program around the library: it reads the file system,
runs background imports, talks to the clipboard and draws the screens.
