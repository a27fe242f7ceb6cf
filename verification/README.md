# multicliprelay

A clipboard relay. Nodes watch the clipboard of a device and send what changes to a relay; the
relay hands each message on to the other members of the same room, whose nodes put it on their
clipboards. Text, images, files and directories are carried. Control panels and trays start and
stop the services.

## Layout

- `src/` is the library, in Verus: the wire format, the rules of the relay's rooms, what is
  published and what is applied, archives of files, bitmaps, the clipboards of Wayland, X11 and
  Windows, and what the panels decide and show. Every function has a contract, and what holds
  across functions stands as a proof function whose name starts with `law_`.
- `tests/` runs the library.
- `app/` holds the programs around it: sockets, processes, files, clipboards and windows.

## Trust

The library calls `bincode`, `sha2`, `image`, `infer`, `tar`, `url` and `uuid` through small
functions marked `external_body`, each with a comment on what it claims. A result that takes
pages to state is given a name, of which only short facts are stated.
