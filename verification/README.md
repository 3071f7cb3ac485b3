# p2p_dir_sync

Keeps a directory in step with the same directory of other peers. A daemon watches the directory,
tells the peers of its group of every change over a gossip topic, and applies the changes that
they tell. Peers join a group with an invite ticket and are allowed one by one.

- `src/` is the library, written in Verus. It decides: which paths are followed, which peers are
  listened to, which changes are told, applied or held back, and what the daemon answers. Its
  contracts say exactly when; the functions whose names begin with `law_` state what holds across
  functions.
- `app/` is the program around it: the disk, the network, the clock, the socket and the MCP
  server. It hands the library plain values and does what the library says.
- `tests/` runs the library on concrete values, with the real outside crates.

The library never panics and does no I/O. A change that is sent or applied is a small machine:
`action` says what is to be done next, `step` takes what came of it.
