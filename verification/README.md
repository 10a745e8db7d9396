# may_minihttp

A small HTTP/1.1 server with WebSocket support that runs on `may` coroutines. What the server
decides and computes is a library verified with Verus (`src/`); sockets, coroutines and logging
are ordinary Rust around it (`app/`).

| Module       | What it holds                                                              |
|--------------|----------------------------------------------------------------------------|
| `buffer`     | byte buffers, big-endian numbers, how buffers grow                         |
| `text`       | decimal numbers, comparison without regard to case, UTF-8                  |
| `error`      | why a connection ends early                                                |
| `request`    | requests, and which of them ask for a WebSocket connection                 |
| `response`   | responses, and how they are written out                                    |
| `reading`    | how a client reads an answer, and that it reads what was meant             |
| `service`    | services, and how a request is answered                                    |
| `handshake`  | the answer that upgrades a connection                                      |
| `frame`      | WebSocket frames, found and put together                                   |
| `session`    | what a WebSocket connection does with its frames                           |
| `connection` | what an HTTP connection does with its requests                             |
| `exchange`   | the order of the answers over a whole connection                           |
| `transfer`   | reading from and writing to sockets that do not block                      |

`connection` and `session` are state machines: each step takes what came of the last action and
names the next one. The loops in `app/` carry the actions out. Public functions named `law_...`
state what holds of the library as a whole.

The `bytes`, `itoa`, `sha1` and `base64` crates are called through functions whose contracts are
trusted; their doc comments say what is claimed of each call.
