# muserv

A personal music library server. The library crate under `src/` holds its
decisions, each with a contract that Verus proves; the program under `app/`
does what touches the disk, the database, the network and other processes.

- `config`: the configuration and what makes it valid.
- `libraries`, `users`: the configured libraries, and who may do what in them.
- `ingest`: which files an import takes in, where they are stored by their
  content, what is kept of their tags.
- `api`: who a request comes from (`auth`), libraries, playlists (`playlists`),
  downloader scripts and their jobs (`downloaders`), imports (`import`).
- `text`, `paths`, `order`, `clock`: texts, paths by their components, the order
  of names, the time.

A request that changes the database is answered in steps: the library says what
to ask the database next, the program asks it and hands the answer back. A path
reaches the library as the components that the machine takes it apart into; the
program keeps the path itself for what it opens.
