# reality_tls

The client side of the VLESS Reality protocol, verified with Verus, together with
the shaping of a TLS `ClientHello` that goes with it.

## The protocol

1. The client draws an ephemeral X25519 key and computes the secret that it
   shares with the server's long-term key.
2. HKDF-SHA256, taken from `TLS13_AES_128_GCM_SHA256` where the provider has that
   suite, turns the secret, salted with the first twenty bytes of the
   hello's random value, into a 32-byte authentication key.
3. The client version, the time and the short ID make a sixteen-byte plaintext.
   AES-128-GCM seals it under the leading sixteen bytes of the authentication
   key, with the last twelve bytes of the random value as nonce and the hello as
   associated data. Ciphertext and tag are the session ID. While it is sealed,
   the hello has zeros in its place; the client's public key is its key share.
4. The server proves itself by a certificate that ends in the HMAC-SHA512 of its
   own Ed25519 key under the authentication key. Any other certificate is left
   to an ordinary verifier.

## The parts

| Module | What it holds |
| --- | --- |
| `config`, `session` | the configuration and the session ID |
| `handshake` | the hello that carries the session's key and session ID |
| `cert`, `verify` | Reality certificates and the verifier |
| `grease`, `profile`, `hello`, `hello_laws` | GREASE, padding, writing a hello |
| `wire` | reading a hello back |
| `ech` | sizing GREASE for encrypted client hello |
| `hkdf`, `provider`, `random` | key derivation, cipher suites, randomness |
| `text`, `vless` | keys and UUIDs as text, VLESS requests, judging a probe |
| `crypto` | the cryptographic primitives of other crates |
| `bytes`, `error` | big-endian numbers, errors |

What is trusted rather than proved stands in `crypto`, `random` and `text`: one
small function for each call into another crate, marked
`#[verifier::external_body]`, with a comment that says what is believed of it.

`app/` is ordinary Rust: the authentication key behind a lock, the certificate
types of `rustls-pki-types`, and the input and output of a client and a probe.
