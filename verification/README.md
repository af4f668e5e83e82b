# seedling

Audio routing for a Bevy application on top of the Firewheel audio engine,
with its decision-making verified by Verus.

- `src/` is the verified library. Entities, audio-graph nodes and node
  labels are plain integers there.
  - `edge`: pending connections and disconnections, how their targets
    resolve against the label map and the entities that carry nodes, and
    connection chains.
  - `node_label`: the labels of an entity and their registration.
  - `fixed_vec`: a sequence with a fixed capacity that evicts its oldest
    element.
  - `incremental_max`: a running maximum over a window, as a segment tree.
  - `activity`: the events queued by the pause and stop markers.
  - `send`: port maps and retargeting of send nodes.
  - `configuration`: device bookkeeping and the initial graph shape.
  - `context` and `error`: the error types and their messages.
- `app/` is the Bevy and Firewheel glue: components, resources, systems,
  the plugin, and the floating-point signal processing.
- `tests/` runs the library on concrete inputs.
