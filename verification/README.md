# missioncenter

The logic of the Mission Center system monitor as a Verus library: what its
pages show for the readings of the system monitor, how its tables are
filtered, arranged and kept up to date, how its graphs scale and animate, and
what its dialogs do with each answer. Every function in `src/` carries a
contract that Verus proves.

Layout:

- `src/text.rs`: character-level string operations (trimming, splitting,
  decimal formatting) and their specifications.
- `src/process_tree.rs`: the process tree: stoppable rows, app processes,
  process names, command lines, action bars, the name cell, and where each
  process, app and service goes among the rows of a list (found, added or
  taken out); `app/process_tree.rs` walks the tree with these.
- `src/tree.rs`: bringing a whole tree of process rows up to date with a
  snapshot of the processes, and what the rows then mirror.
- `src/search.rs`: the header search (substring and edit-distance matching)
  and the status filters.
- `src/columns.rs`: saving and restoring the column order and the sorting.
- `src/services.rs`: the services list: status counts, actions, and the
  update of the list from new readings.
- `src/graph.rs`: graph scaling rules, sample buffers, dataset groups (every
  dataset shows the graph's number of samples), and the animation state of
  a graph.
- `src/history.rs`: the series of a battery's charge history.
- `src/performance.rs`: what the battery, network, fan and disk views show.
- `src/summary.rs`: the texts the performance pages copy to the clipboard.
- `src/titles.rs`: the usage column titles, written into a fixed-capacity
  buffer.
- `src/icons.rs`: icons and the per-width cache of decoded images.
- `src/first_run.rs`: the first-run dialog as a state machine.
- `src/preferences.rs`: bounds of the update settings and the unit toggles.
- `src/about.rs`: the labels of the "About System" dialog.
- `app/`: the GTK side: widgets, settings store, localized messages, and the
  floating-point drawing code.
- `tests/`: tests of the library on concrete values.
