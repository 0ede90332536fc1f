# ryu_rooms

Shared chat rooms served by a local model: a host opens a room, hands out an
invite link, guests exchange the invite for a session, and every participant
submits turns that one model generation at a time answers.

## Layout

- `src/` is the verified library.
  - `store` holds the rooms with their transcripts, runs, invites,
    participants and sessions, every operation on them, and `store::laws`,
    what holds across those operations.
  - `generation` decides what each event of the model's stream does to the
    run and the room; `runtime` keeps at most one generation per room and
    does the store side of stopping a run and closing a room.
  - `limits`, `api`, `codec`, `paths`, `events`, `model` hold input rules,
    HTTP values (cookies, request ids, statuses, join links), stored texts,
    the database path, announced changes and the public shapes.
  - `clock`, `secrets` and `text` reach chrono, uuid, sha2, subtle and url
    through a few small functions whose contracts are stated in their doc
    comments.
- `app/` is the sidecar program: SQLite persistence, the axum routes, the
  event fan-out and the loop that streams from the model.
- `tests/` exercises the library from outside.
