# lez_registry

The SPELbook program registry for LEZ: an on-chain directory in which
developers register deployed program ids with a name, a version, a description,
tags and the Logos Storage (Codex) CID of the program's IDL.

`src/` is the library, verified with Verus:

- `ids` — program ids, their hexadecimal text and big-endian bytes, account ids
  and the PDA seeds of the registry's accounts.
- `state` — the instructions and the on-chain records (`RegistryState`,
  `ProgramEntry`).
- `codec` — the byte layout of the records (Borsh's), with proofs that reading
  what was written gives it back and that readable bytes are exactly the
  bytes of what they read as.
- `account` — the accounts a handler receives and the post states it returns.
- `register`, `update` — the two instruction handlers: every refusal is
  stated, and what an accepted instruction writes.
- `guest` — the handlers as the execution framework calls them, with the
  host's timestamp, and checked entries that return the refusal.
- `requests` — the JSON requests of the C interface: reading their fields from
  the argument text, required fields and their order, the instruction they
  stand for, and the texts of refusals.
- `cache` — the local cache of entries: reading the cache file's JSON,
  replacing an entry by program id and case-insensitive search.
- `storage` — the Logos Storage URLs, the CID of an upload response, the
  base64 form of downloaded content and the IDL document it holds.

`app/` holds what talks to the outside: the `registry` command line, the C
interface, the wallet and sequencer calls, HTTP and the cache file.
