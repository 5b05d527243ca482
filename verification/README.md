# kbzone

A personal knowledge base for the command line (`kb`): entries with a key,
value, notes, category, namespace, tags, metadata, a path and a parent,
directed relationships between entries, YAML import and export, media files
and semantic search over local embeddings.

## Layout

- `src/` is the library, written in Verus and verified by it. Where a
  service function's result comes from the storage ports, the decisions
  made on that result are verified functions of their own:
  - `domain/`: entries, relationships, metadata (a sorted map with unique
    keys), paths of entries and media files, tag suggestion;
  - `service/`: the entry and relationship services over the storage,
    index and media ports (`ports.rs`): adding, updating, deleting,
    importing and exporting entries and edges, one-hop and transitive
    relationship queries, the graph view;
  - `cli/`: the parameters of the commands and the text they print
    (tables, previews, relationship lists, trees);
  - `sql.rs`: the filter clauses of the entry queries;
  - `config.rs`: where the configuration, database and model cache live.
- `app/` is the program around it: argument parsing, the SQLite store,
  the file-system media store, the HTTP fetcher, the embedding model, the
  configuration file, prompts and output.
- `tests/` runs the library on concrete values.
