# annotation_store

Remembers what users annotate on the resources of a media node: labels, descriptions and writable
tags, keyed by seed, kind of resource and name. The store is written to a checkpoint and restored
from it after a restart.

- `src/` is the library, verified with Verus. Each function states what it does in its contract;
  the functions named `law_...` state what holds of the store, its checkpoint, the replacement of
  the file and the writer as a whole.
- `app/` is the daemon's side: the lock round the store, the thread that writes, JSON and the file
  system. It performs the steps that the library decides on.
- `tests/` runs the library.

A store that was written and is read again holds the same entries, provided that no tag in it is
read-only: a checkpoint with a read-only tag is refused.
