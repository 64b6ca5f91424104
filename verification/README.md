# codescope_tui

The terminal interface of codescope as a verified library: what a review workspace shows,
what a key or the pointer does to it, and how generated plans become diagrams. Everything
under `src/` is verified with Verus.

## Layout

- `src/action.rs`, `src/event.rs`: keyboard input and the intents it maps to.
- `src/app.rs`, `src/app_laws.rs`, `src/viewport.rs`: the application state, what every action
  does to it, and where the diff of a file or an object stands.
- `src/file_rows.rs`, `src/files_pane.rs`, `src/tree_pane.rs`: the tree of changed files, and its
  pane as a flat list and as a tree.
- `src/intraline.rs`, `src/diff_view.rs`, `src/diff_pane.rs`: changed words, wrapped and raw
  diff lines, and the diff pane.
- `src/plan.rs`, `src/diagram*.rs`: generated plans, their cards, routes and drawing.
- `src/canvas*.rs`: the free canvas with world coordinates.
- `src/geometry.rs`, `src/mouse.rs`, `src/hit_laws.rs`: what is where on screen, what the pointer
  does, and that it hits what is drawn.
- `src/review.rs`: review marks that belong to the content they were made for.
- `src/chrome.rs`, `src/dialog.rs`, `src/impact_view.rs`, `src/render.rs`: bars, dialogs,
  relationship lists, and the whole frame as a list of drawings.
- `src/layout.rs`, `src/split.rs`, `src/divider.rs`, `src/scroll.rs`, `src/rect.rs`: areas.
- `src/text.rs`, `src/wrap.rs`, `src/elide.rs`, `src/style.rs`, `src/table.rs`, `src/num.rs`:
  text, paint, small maps and numbers.
- `app/`: ratatui drawing, crossterm events, and serialised changes around the library.
- `tests/`: tests of the library from outside.

Public proof functions named `law_…` state what holds of several functions together.
