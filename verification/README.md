# rust_api_example

A registry of RFID tag readings, written in Verus and verified.

A reading has an EPC, an optional TID, an antenna number and a signal
strength. The registry trims and upper-cases EPC and TID, checks them
(EPC: non-empty hexadecimal of a length that is a multiple of 4; TID:
24 hexadecimal characters; antenna: positive; signal: from -255 to -1),
and stores the reading under its identifier: the TID when there is one,
`_` followed by the EPC otherwise. A second map indexes EPC to TID.

Layout:

- `src/` — the verified library: `text` (trimming, upper-casing),
  `validation` (the rules and their errors), `models` (readings and
  records), `store` (the `dashmap::DashMap`s behind trusted contracts),
  `sorting` (the order of listings), `tag_list` (the registry and its
  invariant), `laws` (properties across operations), `clock`.
- `tests/` — tests of the library.
- `app/` — the HTTP service (axum) around the library.
