# elemtok

Tokens built from chemical element symbols (`FeAuRnCuXeNdCsPbBiTh`), with
their behaviour specified and proved in Verus.

- `src/symbols.rs`: the 104 two-letter element symbols, and what is proved
  of them (two ASCII letters each, upper then lower case; no duplicates).
- `src/rng.rs`: rejection sampling of an index over 16-bit words, from a
  caller's source or from the operating system's; the proof that every index
  is selected by the same number of words.
- `src/generate.rs`: building a token of `length` symbols; every token it
  returns validates.
- `src/validate.rs`: the format check, which accepts exactly the non-empty
  concatenations of symbols.
- `src/os_random.rs`: the one call into `getrandom`.
- `app/lib.rs`: `Display` and `std::error::Error` for a copy of the error
  type.

A source that only ever returns rejected words is given up on after
`2^64 - 1` consecutive rejections, with `Error::NoSecureRandom`.
