# ferrite_blocks

The logic of the ferrite SDR block library, with its contracts proved by
Verus.

- `src/` — the verified library: block descriptors and reconfigure scopes,
  the `events` port plumbing (line reassembly, bounded buffering, draining),
  the audio ring, the decoders' state machines (DTMF digit tracking, FT8/FT4
  slot timing, the scripted DTMF schedule), the text formats the blocks
  exchange (APRS monitor lines and information fields, FT8 messages, the
  JSON records of spots and events), the WAV capture header and size
  arithmetic, replay buffering and sample counting, the decimator's phase
  and rate bookkeeping, and the frame envelope.
- `tests/` — tests run against the compiled library.
- `app/` — the runtime around it: the block trait and its port buffers, the
  floating-point DSP (Goertzel filters, tone synthesis, windows and FFTs,
  coordinate conversion), serde encodings, file I/O and the wall clock.

Each module states its model in spec functions and proves the laws the
blocks rely on (`law_*` proof functions) next to the code they are about.
