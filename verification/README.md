# omnimodem-dsp (verified core)

The integer logic of the omnimodem multi-mode modem as a Verus library: the
functions in `src/` are proved against their `requires`/`ensures` contracts.

- `src/` — the verified library: mode parameter grids and their labels
  (Contestia, DominoEX, FSQ, Hell, IFKP, JS8, JT4, MFSK, MT63, NAVTEX), tone
  maps and code-bit layouts (IFK+, JT65, JS8, FST4, MSK144, JT4), the MT63
  source encoder and phase-index accumulation, differential PSK phase coding,
  the oscillator phase accumulator, the RSID encoder, ID tables and ring
  matcher, Mode S parity, single-bit repair, field decoding, candidate
  acceptance and the ICAO roster, the FSQ CRC, framing and directed-message
  protocol, and the MFSK / FSQ / IFKP picture headers. Laws that relate
  several functions are public `proof fn`s next to the functions they speak
  of.
- `tests/` — known-answer and scenario tests run against the compiled library.
- `app/` — the floating-point side (front-end filters and detectors, the
  resampler, the oscillator table, the RSID receiver's FFT stage, the 2.4 Msps
  Mode S slicer, FST4 waveform synthesis, the MT63 audio engine) and the
  displayable error type; it calls into the library for the integer work.
