# video_splits

A desktop tool for timing splits across several videos played side by side
(GTK 4 and GStreamer), with its rules written and proved in Verus.

- `src/` is the verified library: the split table (rows of split times,
  durations and start time offsets per video, and how an edit is corrected
  so that split times stay in order), the seek bar marks and timeline
  length, the shared playback controls, the clamp that holds a video in a
  time window, the color pool, and the reading and writing of
  `MM:SS.mmm` times. `window::Window` holds the table together with the
  seek bars whose marks show its cells: every edit made through it leaves
  each linked mark showing its cell's current split time, and it admits at
  most six players, with a free color for each.
- `app/` is the program around it: the window, the GStreamer pipelines and
  their shared clock, and the drawing of the marks.
- `tests/` runs the library on concrete values.

The maps keyed by text (marks by id, colors by player, segments by
player) are `helpers::str_map::StrMap`, a vector of pairs whose keys are
kept distinct, rather than std's `HashMap` or `BTreeMap`: vstd's
specifications of those maps hold only for key types whose equality and
hashing it models (the integers among them), and with `String` keys not
even the length after one insert could be proved. The vector's view as a
map carries the same meaning, with the distinct keys as its invariant.

Verify the library with Verus on `src/lib.rs`; the tests and the program
build with Cargo.
