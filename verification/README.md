# scrapdog

Reads the `scrapbook.rdf` index of a ScrapBook X folder, numbers its nodes for
a SQLite database, and reads stored scrapbooks back as trees.

* `src/` is the library, verified with Verus:
  * `parser/` reads the index: XML elements (through `minidom`), descriptions
    into nodes, `Seq` elements into folders, resource references and icon
    attributes (through `regex`);
  * `types/` holds icons and wall-clock times that still need a node's
    context (its data folder; the time zone, given by its answers, which
    the program takes from `chrono`);
  * `storage/` numbers nodes for storage (`node_mapper`, `importer`), encodes
    child lists as bincode blobs (`blob`), maps node types to their stored
    codes (`types`), names bucket folders (`buckets`) and rebuilds trees from
    loaded rows (`loader`);
  * `text.rs` and `paths.rs` hold string and path helpers.
* `app/` is the command-line program and web server around the library: file
  and database access (diesel), directory lookup, JSON output.
* `tests/` exercises the library on concrete values.
