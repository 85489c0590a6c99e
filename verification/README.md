# chatroom

A chat service in rooms. People log in to a room with a name and a password,
get a signed token, and chat over a WebSocket with the others in the room;
messages are stored and can be listed, files can be uploaded.

- `src/` is the library, with its contracts and proofs: the room registry that routes
  messages (`room.rs`), the steps of a login, the frames of a chat
  connection and the answers of each request (`controller*`), the order of
  keys (`keys.rs`) and the text forms of the answers (`text.rs`).
- `app/` is the server around it: routes, JWT layer, database, WebSocket
  and file I/O, and the loop that runs the rooms.
- `tests/` runs the library on concrete values.
