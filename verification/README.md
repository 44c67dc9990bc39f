# ui_toolkit

A WoW-style UI toolkit: frames, widgets and a runtime parser for `rsx! { .. }`
blocks (hot reload). The crate is written in Verus.

- `src/` is the verified library. Its main parts:
  - `hotreload::parser`: the `rsx!` block parser, with a specification of
    every step over the characters of the source, and the laws that parsed
    trees hold static values only and keep `anchor` elements out of the
    children;
  - `widgets::edit_box`: the text editing of edit boxes (UTF-8 byte cursor,
    letter and byte limits);
  - `event`: the event bus (listener sets per event name, event queue);
  - `registry`: the name index and the anchor-dependency index of the frame
    registry;
  - `frame_graph`: whether a frame depends on another through anchors, the
    checks of setting an anchor (with the law that accepted anchors never
    close a cycle), which frames a change marks for layout, and the
    visibility that showing or hiding a frame gives the frames under it;
  - `screen`: the generation counters of the shared context and the rebuild
    decision of screens, with the laws that a fresh record asks no rebuild
    and that setting a value makes the screens that read it rebuild and
    leaves the others as they were;
  - `strata`, `anchor`, `attrs`, `dioxus_elements`, `anchor_resolve`,
    `dioxus_anchor`, `dioxus_hotreload_diff`, `widget_def`: names,
    enumerations and the decisions of attribute application, with their
    round-trip laws;
  - `widget_def_diff`: the flattening of definition trees and the matching
    of definitions to existing frames (by name, then by widget type), with
    the law that it takes no frame twice, loses none and places every
    definition once;
  - `text` and `id_sets`: character scans and sorted id sets shared by the
    above.
- `app/` is ordinary Rust around the library: frames and their registry,
  layout, attribute application, diffing, screens, the file watcher, text
  measuring, input, animations. It holds what works in floating point or
  does I/O.
- `tests/` exercises the library.
