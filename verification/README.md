# notion-sync

The library behind `ons`, a command line tool that syncs the Markdown notes
of an Obsidian vault to a Notion database, written in Verus.

- `src/` is the verified library:
  - `text`: characters, whitespace, trimming, line splitting, decimal integers;
  - `keyed`: a map from text keys that keeps the order in which keys arrive;
  - `path`: file names and extensions of paths;
  - `frontmatter`: reading the `---` block of `key: value` fields of a note;
  - `notion`: page properties and blocks, and the requests of the Notion API;
  - `sync`: the sync of one note as a state machine of requests and replies,
    and the summary of a run;
  - `parse_laws`: properties of the front matter reader over whole texts;
  - `laws`: properties that span several of these.
- `app/` is the program around it: arguments, files, `curl`, and JSON.
- `tests/` runs the library on concrete notes and replies.
