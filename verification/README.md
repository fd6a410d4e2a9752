# libasterix

Decoding and encoding of ASTERIX (All Purpose Structured Eurocontrol
Surveillance Information Exchange) data blocks, written in Verus: every
decoder and encoder function carries a contract that states, over byte
sequences, exactly what it returns, and Verus proves the code against it.

| Category | Description              | Decode | Encode |
|----------|--------------------------|--------|--------|
| CAT-048  | Monoradar Target Reports | yes    | no     |
| CAT-062  | System Track Data (SDPS) | yes    | yes    |

## Layout

- `src/asterix/cursor.rs`, `write_cursor.rs`: reading and writing big-endian
  values; the specifications of the elementary reads.
- `src/asterix/items.rs`: FX-chained items and compound items shared by the
  categories.
- `src/asterix/ia5.rs`: the 6-bit IA-5 callsign code.
- `src/asterix/cat048.rs`: CAT048 records and blocks.
- `src/asterix/cat062.rs`, `cat062_items.rs`: CAT062 records and blocks.
- `src/asterix/cat062_encode.rs`: CAT062 encoding.
- `src/asterix/cat062_laws.rs`: what decoding gives back of an encoded block.
- `app/`: serde representations and conversions to physical units
  (floating point), which stay outside the verified library.

The library keeps every item in its transmitted units (for example the
I062/105 latitude in units of 180/2^25 degrees).
