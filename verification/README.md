# dactylo

A terminal typing trainer: pick a duration and a difficulty level, type an
endless stream of words against the clock, and compare the run with your own
history.

The crate has two parts:

- `src/` is the library, written in Verus and verified: settings from the
  command line, the word list and the per-level word pools, the typing session
  (target text, keystrokes, backspace, the clock, per-second samples and the
  mistake tally), the key handling of each screen, the screen-to-screen flow,
  weakness ranking, and the bookkeeping around the history file. Each public
  function states its result in its `ensures`; the laws that span several
  calls are public proof functions (`law_*`).
- `app/` is the program around it: terminal drawing, the event loop, files,
  and the statistics that are computed in floating point.

`tests/` exercises the library on concrete values.

The word list is read at run time from `~/.dactylo/words-en.txt`, one word per
line in frequency order.
