# fresh_view

State and layout logic of the settings controls of a terminal text editor,
written in Verus and verified.

- `src/text.rs`: UTF-8 text as characters; cursors count characters, and the
  std string operations the controls use work at the matching byte positions.
- `src/layout.rs`: screen rectangles.
- `src/json.rs`: JSON values held as plain values (numbers by their printed
  text), with copies, equality, JSON Pointer lookups and compact JSON text.
- `src/view/controls/`: button, text list and key/value map controls: their
  state transitions, the layout of their rows and hit areas, and what each
  part shows and in which color role.
- `src/view/settings/items.rs`: the settings' controls (toggle, number,
  dropdown, text, text list, map, complex), their items and pages.
- `src/view/settings/state.rs`: navigation, scrolling, search, dialogs, focus,
  editing of the selected text list, setting controls from JSON values and
  the pending changes of the settings panel (each path at most once, kept by
  a type invariant), and applying them to a configuration at their JSON
  Pointer paths.
- `app/`: drawing of the controls with ratatui, and conversions between
  serde_json values and the library's.

Each state type has an abstract model (its `View`); the operations state the
model they leave, and the `law_*` proof functions state what holds across
operations.
