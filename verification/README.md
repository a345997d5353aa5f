# bgfastnet_lib

Decoding of the FastNet bus of B&G Hydra / H2000 instruments, verified with
Verus, and two command-line front ends.

## Layout

- `src/` — the verified library.
  - `utils.rs`: the FastNet checksum.
  - `constants.rs`: name tables (addresses, commands, channels, formats,
    display symbols).
  - `decode.rs`: decoding of channel-record frames, ASCII position frames and
    backlight frames. Numbers are kept exact (`Scaled`).
  - `map.rs`: projection of decoded values onto Signal K paths, units, the
    channel map and the position reader. Each projected number names the
    conversion to SI units (`Conversion`).
  - `frame.rs`: `FrameBuffer`, which reassembles frames from raw bytes, checks
    their checksums and queues the decoded ones.
  - `pgn_map.rs`: the table from Signal K paths to NMEA 2000 PGNs.
  - `n2k.rs`: framing of a raw stream, the choice of the NMEA 2000 message for
    projected readings, and its canboat PLAIN text line.
  - `text.rs`: text helpers (hex, decimal, trimming, UTF-8).
- `tests/` — tests of the library.
- `app/` — the command-line program: with one argument it prints the decoded
  Signal K values of a hex file or a serial port; with two it converts the
  frames to NMEA 2000 lines written to stdout (`stdout` or `-`), `can0` or a
  file. Floating-point arithmetic (unit conversion, payload bytes) and all
  I/O live here.
