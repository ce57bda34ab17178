# rok-crypto

Cryptographic building blocks with machine-checked contracts:

- `ids`: CUID2, ULID (with monotonic generation), UUID v7, NanoID and
  Snowflake identifiers, their text forms and parsers;
- `hash`: password hashing with Argon2id, bcrypt or scrypt behind one
  `Hasher`, with verification and "needs rehash" checks;
- `encrypt`: AES-256-GCM tokens with purposes, expiry and key rotation, and
  HMAC-SHA256 signatures;
- `jwt`: compact HS256 JSON Web Tokens;
- `totp`: six-digit one-time codes with drift windows;
- `password_policy`: password rules and a strength score;
- `provider`: a hasher, an encrypter and a signer bundled together;
- `util`: random strings, constant-time comparison, secret keys.

`src/` is the library, written in Verus, which proves the library's
functions against their `requires`/`ensures` contracts. The cryptographic
primitives, the clock and the random source come from the RustCrypto
crates, `bcrypt`, `base64`, `uuid`, `chrono`, `rand` and std; the small
functions that call them are marked `#[verifier::external_body]`, are not
proved, and their contracts (where they have one) are the assumptions the
proofs rest on. Laws of the library
(tokens open to what was sealed, a fresh hash verifies and needs no
rehash, a JWT decodes to the payload it was made from, ...) are proof
functions or postconditions in `src/`.

`app/` holds what does not belong in a verified library: reading
environment variables, process-wide generator state, async wrappers,
serde and `Display` forms of the types, and typed JWT claims.
