# rflasher

A library for reading, writing and erasing SPI flash chips, verified with
Verus.

- `src/` is the verified library: flash chip descriptions and the chip
  database, SFDP parsing, SPI 25-series commands, the smart write (erase
  and program only what changes), erase planning, flash layouts (Intel
  Flash Descriptor, FMAP, TOML), the command plans and state latch of a
  flash session, and the framing of the CH341A, CH347, ATI and bitbang
  programmers' transfers.
- `app/` holds what the verifier does not see: TOML and RON parsing with
  serde, file access, and generating the static chip table.
- `tests/` runs the library on concrete values, with in-memory flash chips
  and recording programmers.
