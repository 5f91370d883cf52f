# launcher

A game launcher and the tool that writes its server lists. The rules of both
stand in `src/`, a library in which every function states what it returns and is
proved by Verus; `app/` is the ordinary Rust around it.

- `src/` – list and settings formats, ciphers and keys, the morph table and its
  preparation, the machine code that is written into the game, the plans for
  every patch, the update steps and the window's messages
- `tests/` – tests of the library from outside
- `app/` – `main`, windows, files, sockets and the game's process

Each call into another crate stands in one small function marked
`external_body`, with a comment on what is taken for granted about it:
`base64_text`, `block_cipher`, `legacy_text`, `zlib`, `gui/archive`,
`gui/json`, and for the
standard library `text`, `unicode` and `rsa32`.

Public proof functions named `law_..` state what holds across functions: what is
written reads back, what is encrypted decrypts, jumps land where they should.
