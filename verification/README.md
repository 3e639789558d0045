# pickle

The core of a voice and text chat client, written in Rust and proved with
[Verus](https://github.com/verus-lang/verus).

There are no accounts: a user is an Ed25519 key pair on their own machine, and a
server recognises a returning user by public key. A client pins a server's
identity on first contact and refuses one that changed.

## Layout

`src/` is the verified library. Its functions state in their contracts what they
return or change, and Verus proves that they do. Nothing is promised of a reading
of the clock, or of what the operating system's randomness yields; functions that
take such a value as an argument say what follows from it.

| Module | What it holds |
| --- | --- |
| `identity` | keys, fingerprints, signed challenges, proof of work, the key store, the vault of identities and its encryption |
| `proto` | control messages, framing, voice datagrams, roles and permissions |
| `client` | the login as a state machine, the trust policy, pinned servers, incoming frames |
| `audio` | the jitter buffer, the voice gate, framing of samples, the mixer's rules, the choice of a device |
| `desktop` | what the window's commands decide, bookmarks, settings, shortcuts, mouse buttons, the permission mirror |
| `text`, `octets` | strings and octets, with the contracts that the rest builds on |

Public proof functions whose names start with `law_` state what holds across
functions: that what is sealed opens again, that no identifier is used twice,
that a changed server is refused, and so on.

What the library takes on trust is in three places, each with a doc comment that
names the outside function and what is claimed of it: `identity::crypto` (hashes,
signatures, key derivation, the cipher, base32 and base64, randomness), `octets`
(the `bytes` crate) and a few functions of the standard library in `text` and
`client::trust`.

`app/` is the program around it: files, sockets, the sound card, input devices
and the window. Floating-point work on samples lives there too.

`tests/` runs the library.
