# text_input

A single-line text input whose editing logic is proved with Verus.

- `src/utf.rs`: UTF-8 and UTF-16 widths of characters, byte offsets and character
  boundaries of a text, the conversions between UTF-8 and UTF-16 offsets, slicing and
  splicing a string at byte offsets.
- `src/graphemes.rs`: extended grapheme cluster starts from `unicode-segmentation`,
  and the search for the boundary before or after an offset.
- `src/model.rs`: the abstract state of an input (`InputModel`) and what every
  operation does to it.
- `src/input.rs`: `TextInput`, whose operations are proved to act as `InputModel`
  says, keep selections and marked ranges on character boundaries, and never panic
  on the inputs their `requires` admit (the `can_*` functions test those inputs).
- `src/laws.rs`: properties across operations: offset round trips, reading back an
  edit, cut followed by paste, selecting everything, extending a selection.
- `src/document.rs`: the data types of a document.
- `app/lib.rs`: the gpui view around the library (actions, mouse, clipboard, the
  platform input handler, shaping and painting).
