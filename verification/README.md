# repo_link

The rules of a task tracker that mirrors tasks to issues and boards of a remote
host, as a verified library with ordinary services around it.

- `src/model`: tasks, relations, boards, queued mutations, and the names they
  are stored under.
- `src/search`: chunking and fingerprints, the literal lane over full case
  folds, ranking, and one search from request to response.
- `src/sync`: what a changed task owes the host, where its issue is filed, and
  promotion, push, pull, link, polling and the application of queued mutations
  as state machines.
- `src/task`: resolving, showing, minting, editing, relating and rolling back
  tasks.
- `app`: the services that do the reading, writing and waiting. A service asks
  a state machine what to do next, does it, and hands back what came of it.

A state machine's contract fixes the next step for every reply. The public
proof functions whose names begin with `law_` state what holds of the library
across calls.

What is taken on trust is named where it stands: the case fold of
`unicode_casefold`, the digest of `sha2`, the delay arithmetic of `chrono`, and
a few functions of the standard library.
