# Octothorpe

Turn an Akai APC40 and APC20 into a step sequencer.

The sequencer's logic is a Verus library under `src/`, verified against its contracts:

- `tick_range`, `events`, `loopable`: ticks, the events on the rows of patterns, phrases and
  timelines, and how a new event makes room among the others on its row;
- `track`, `sequence`, `sequencer`: channels, the sequences of phrases they play, and the
  notes the sequencer starts and stops in each process cycle;
- `controller`, `surface`, `memory`, `display`, `playable`: reading the controllers' input,
  what they show and remember, and the lights they are sent;
- `hardware`, `router`, `mixer`, `scroller`, `pattern`, `phrase`, `note`: devices and their
  button rows, port routing, fader positions, scrolling text, and the pattern and phrase
  model that plays patterns by bars.

`app/` is the JACK client around it: ports, the process callback, the timebase callback, and
the conversions between frames, microseconds and ticks, which compute in floating point.
