# movable

The server side of a volume synchroniser, written in Verus.

A client streams a description of a volume (its name, then one entry per
file with the chunk size bounds the file was split with, then `Done`). The
server gathers the entries keyed by path, walks them in path order, and for
each file either asks the client to delete it (the server has no such file)
or splits its own copy into content-defined chunks.

- `src/` is the verified library: the messages (`proto`), the chunk size
  choice (`params`), chunking (`chunking`), path keys and their order
  (`paths`), the file table (`table`), and the decisions of one exchange
  (`sync`).
- `app/` is the program around it: the Docker volume-plugin socket, the
  gRPC glue with the wire forms of the messages, and the file system.
- `tests/` exercises the library on concrete values.
