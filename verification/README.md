# kweebitect

A terminal browser for JSON documents: the document is shown as columns, one
list for each level from the root down to the container being browsed, with a
preview of the selected container to the right.

- `src/` is the verified library (Verus):
  - `text.rs`: decimal text of indices and the parsing of entry labels;
  - `value.rs`: the ordered JSON value, its entries, lookups and row lines;
  - `model.rs`: the browser state and the path of segments;
  - `update.rs`: key presses, messages and how they change the state;
  - `view.rs`: what the screen shows: mode and path strips, column plans,
    column widths and which columns fit.
- `app/` is the program around it: argument handling, reading and parsing the
  file, the terminal event loop and the drawing with ratatui.
- `tests/` exercises the library on concrete values.
