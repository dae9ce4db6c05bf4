# web_server

A small HTTP document server, a static-page server and a command-line client.

- `src/` is the verified library: command-line parsing (`args`, `shell`),
  the client's command lists (`client`), request routing (`request`),
  response framing (`response`), the in-memory document store (`store`),
  the JSON texts of documents written by serde_json (`json`),
  decimal numbers (`decimal`) and text helpers (`text`).
- `app/` holds the programs around it: the prompts, the sockets, the thread
  and process pools, file reads, and the `curl` calls.
- `tests/` runs the library on concrete inputs.
