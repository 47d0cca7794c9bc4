# sirji

A peer-to-peer network substrate over iroh. Two kinds of key, kept apart: a
handshake key is an address (what we listen on), a peer key is an identity (what
we dial from, shown to exactly one peer).

## Layout

- `src/` — the library, verified with Verus. Every function states what it does
  in its contract.
  - `id52` — the 52-character text form of a public key.
  - `keys`, `codec` — ed25519 keys and the text codecs, behind small trusted
    wrappers around `iroh`, `data-encoding` and std.
  - `config` — the known net (`network.toml`) and the invariants `check` enforces.
  - `ticket` — the signed ticket that admits a caller to one device.
  - `keystore` — where each key is filed, and whether a file holds the key it claims.
  - `settings` — operational settings and their environment overrides.
  - `daemon` — what the daemon decides: greetings, asks, lookups, CLI requests.
  - `doctor` — verdicts and advice from what the probes found.
  - `tsf` — the t-sirji-fs device: its config, protocol, admission and listing.
  - `text`, `order` — strings, paths and their order.
- `app/` — the programs around it (`sirji`, `sirjid`, `t-sirji-fs`): files,
  sockets, the async runtime and iroh endpoints. It hands the library plain
  values and acts on what comes back.
- `tests/` — tests of the library on concrete values.
