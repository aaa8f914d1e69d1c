# dtmpfs

A distributed in-memory filesystem. The same namespace is mounted on several
hosts; file data lives in the memory of a set of storage nodes, in blocks, and
what one host closes another sees when it opens the file.

The library under `src/` is verified with Verus. It holds what the three roles
of a cluster decide and compute:

- `hash` places blocks on storage nodes by rendezvous hashing.
- `meta` is the metadata server: directories, attributes, handles, generations
  and the places of blocks. `model` says what each request does, `service` does
  it, `laws` says what holds of the whole, and `history` what holds over any
  course of requests.
- `store` is a storage node: blocks under a budget, and the refusal of writes
  that come too late.
- `client` is a mount: writing and reading block by block, finding a block among
  its replicas, and publishing what was written. `laws` ties the three roles
  together: what was closed is what is read after the next open.
- `outside` holds every call into another crate, with what is claimed of it.

`app/` is the program around the library: configuration files, remote calls,
the kernel interface. It runs the role that its configuration names.
