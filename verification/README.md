# rsnova

A secure proxy and tunnel that carries many streams over one encrypted connection. The library in
`src/` is written in Verus: every function states what it does in its contract, and Verus proves
it. The program in `app/` does the input and output around it.

## Layout

| Part | What it holds |
| --- | --- |
| `src/mux` | Framing, flow control and dispatch of a multiplexed connection; what holds of a transfer between its two ends; session pools |
| `src/rmux` | Encrypted sessions: frames, streams, the session's loop, the sessions of each channel |
| `src/cipher.rs`, `src/buf.rs`, `src/codec.rs` | Ciphers, buffers, numbers as bytes |
| `src/common` | TLS client hello, HTTP requests, peeking and copying, time limits, addresses |
| `src/proxy` | Telling protocols apart; SOCKS5, HTTP and TLS server names |
| `src/channel.rs`, `src/config.rs` | Channels: when sessions are opened, and how they log in |
| `src/service.rs`, `src/tunnel_config.rs` | What the program's arguments ask for |
| `src/admin.rs`, `src/form.rs`, `src/app_config.rs` | The admin pages |
| `src/init_dir.rs`, `src/wizard.rs` | Setting up a data directory |
| `src/stat.rs`, `src/text.rs`, `src/parts.rs` | Counters, texts and their parts |
| `tests` | Tests against the compiled library |
| `app` | The program: command line, sockets, TLS, files |

## How it fits together

State machines in the library take an event and return what is to be done: a frame to write, data
to deliver, a stream to hand over. The program performs it and reports back. So the library's proofs
cover every order in which events can arrive.

What the library has from other crates stands behind small functions whose contracts say what is
relied upon: `ring`, `skip32` and `crc` for encryption, `bytes` for buffers, `bincode` for messages,
`httparse`, `url`, `regex`, `unicase`, `twoway` and `byteorder` for parsing, `rand` for numbers and
`futures` for wakers.
