# chainsync_loadtest

Puts a load on a network by fetching a chain from it: the headers from a given
block on, the block of each header, and the chunks of each block.

* `src/` is the library, verified with Verus. It holds the state of contexts,
  scopes, dispatchers, rate limiters, requests and searches, and what becomes of
  that state. It does not lock, wait or talk; its operations return what is to
  be sent and who is to be woken.
* `app/` is the program around it: it locks, waits, talks to the node, reads the
  command line and the disk.
* `tests/` runs the library.

What the library rests on without proof is marked `external_body` in `src/`: the
clock, chance, the rate quota, the erasure code, the reading of a hash, and the
error inside an `anyhow::Error`. Each such item says what it claims.
