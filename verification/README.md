# kurv

The discrete core of a resynthesis oscillator, verified with Verus.

`src/` holds the logic that decides rather than computes samples:

- `scheduler`: the fixed-capacity grain arena (free list, generation-tagged
  handles, per-bucket expiry lists) with its invariant and laws.
- `lanes`: the realtime grain layers: first-free admission, aging, expiry
  at the grain's length and swap-removal from the render order.
- `analysis`: the bit-exact harmonic mask and the ranking of pitch candidates.
- `quality`, `targeting`, `resynth`, `oscillator`: the enumerations of the
  engine, their stable wire codes and their tables.
- `decode`: container recognition, file-name checks, the WAV header gate
  (the header itself is read by `hound`) and the decisions of the packet
  loop of the general decoder (skip, reset, finish, fail).
- `digest`: BLAKE3 source digests and the framing of the visual digest.
- `visual`, `artifact`: display metadata, waveform bucketing, the rich
  timeline plan, reflected indexing and decimation bounds.

`app/` holds what works on floating-point samples: control clamping, block
scheduling of grain onsets, PCM decoding through `hound` and `symphonia`,
and the process-wide quality setting.
