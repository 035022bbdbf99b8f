# iroh-http

HTTP over QUIC streams between nodes that are named by public keys. `src/` is the
library: what is decided, checked, framed and kept, written in Verus with contracts that
are proved. `app/` is the running side: sockets, tasks, channels, serialised forms.

| Part | Modules |
| --- | --- |
| Names and addresses | `encoding`, `addr`, `urls`, `lookup` |
| Opening an endpoint | `config`, `bind`, `dns` |
| Serving | `serve`, `serve_slot`, `lifecycle`, `stack`, `dispatch` |
| Fetching | `fetch`, `client`, `pool` |
| Handles and bodies | `slots`, `handles`, `guard`, `registry`, `pumps`, `compress` |
| Sessions | `session` |
| Header compression | `qpack_bridge` |
| Observing | `observe`, `stats`, `events` |
| At the edges | `adapter`, `rules`, `crypto`, `error`, `text`, `types` |

The library holds no socket, and reads the clock in one place, `events::now_ms`, for the
events that carry the time at which they were made. Where something outside decides (the
time, a peer, a channel), a function takes what came back as an argument and says what
follows.
Properties of several functions together stand as public proof functions beside them.

Calls into other crates go through small wrappers, each with a comment that says what is
taken from that crate without proof.
