# fints

The core of a FinTS 3.0 PIN/TAN client, with a mock bank to test it against,
written in Verus: what the functions do stands in their contracts and is proved.

- `src/` is the library. It computes and decides; it neither sends nor receives.
  - `text`, `numbers`, `dates`, `decimal`, `map`, `ids`, `types`: values.
  - `element`, `parser`, `serializer`, `roundtrip`: the syntax of messages.
  - `segments`: building request segments and reading answer segments.
  - `codes`, `reply`, `params`, `request`, `message`, `dialog`, `account`:
    the protocol. A dialog's type says what it can do next.
  - `workflow`, `dkb`: banks.
  - `server`: the mock bank.
- `app/` is the program: the mock bank over HTTP, and a client over HTTP.
- `tests/` runs the library.

The functions named `law_...` are proofs of what holds of the library as a
whole: that what was written is read back, that a client and the mock bank
understand each other, that a bank that reads with the PIN alone is never asked
for a TAN, and the like.

What is not proved is marked `Trusted:` in the doc comment above it: a few calls
into std and into the crates base64, chrono and rust_decimal.
