# mam-audiofinder

A small web application that searches MyAnonamouse for audiobooks and ebooks,
hands torrents to Transmission and copies finished downloads from `/downloads`
into `/library` or `/ebooks`.

The rules of the application are a library whose behaviour is stated in
contracts and proved with Verus. The server around it reads and sends: it does
what the library says and tells it what came back.

## Layout

- `src/settings.rs`: settings from the configuration file and the environment,
  and what the setup page changes
- `src/search.rs`, `src/values.rs`: the request of a search and what is made of
  the answer
- `src/adding.rs`: the steps that bring a book to Transmission and into the
  history
- `src/transmission.rs`: calls of Transmission and the list of finished torrents
- `src/import.rs`, `src/paths.rs`, `src/names.rs`: what is copied where
- `src/history.rs`, `src/auto_import.rs`: the rows of the history, how they
  change, and the imports that are done by themselves
- `src/json.rs`, `src/text.rs`, `src/numbers.rs`, `src/words.rs`,
  `src/error.rs`: what the others are built from
- `src/outside.rs`: every call that leaves the verified code, with what is
  believed of it
- `app/`: the server, the database and the files
- `tests/`: tests of the library

Laws of the library as a whole stand as public proof functions at the end of
the module that they are about.
