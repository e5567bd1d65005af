# hardware_monitor

The logic of a hardware and thermal monitor applet for the COSMIC desktop,
written in Verus and proved against its contracts.

- `src/` — the verified library: the parsers for what the kernel publishes
  under `/proc` and `/sys` (CPU counters and sensors, GPU, fans, drives,
  partitions, memory, network, processes), the bookkeeping that turns
  cumulative counters into intervals, the stable orderings the lists are shown
  in, the text the popup writes (byte sizes, uptimes, the thermometer glyph),
  and the applet's state machine.
- `tests/` — tests of the library on concrete inputs.
- `app/` — the applet itself: reading files, running `lspci`/`nvidia-smi`,
  `statvfs`, the floating-point arithmetic, the libcosmic views, settings
  storage and localization.
