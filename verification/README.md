# caevern

The verified core of the Caevern game client, written in Verus.

`src/` is the library; every function in it carries a contract that Verus
proves:

- `cae` — the `.cae` scene format: a parser over bytes whose result is exactly
  the format's specification (`spec_scene`), with distinct mesh keys and
  instances that always name the mesh they were resolved against.
- `network` — the user-position protocol: position messages, player lists,
  registering each user once, coalescing queued position updates, login, the
  earlier user thread, and cutting captured audio into codec frames.
- `input` — keyboard, mouse and menu-tablet state of the window.
- `bones`, `skeleton` — bone ancestry and the binding of skeleton parts to
  bones by name.
- `render`, `material`, `engine` — shader choice, buffer sizes, the draw plan
  of a frame, texture selection for mesh parts, per-frame tasks, and the
  avatars placed for other players.
- `table`, `transform`, `wire` — a name-keyed table, coordinates held as
  IEEE-754 bit patterns, and big/little-endian words.

Floating-point arithmetic stays outside the library: coordinates travel as bit
patterns and become floats again in `app/`.

`app/` is the headless client around the library: sockets, threads, file
reading, JSON for the voice signalling messages, and the matrix arithmetic.

`tests/` exercises the library on concrete values.
