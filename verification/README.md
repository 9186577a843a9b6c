# tv-proxy

A proxy for live television streams. It lists channels as an M3U playlist, finds the stream of a
channel, and serves playlists, segments and keys through itself, so that a player only ever talks to
the proxy.

`src/` is the library: what the proxy computes and decides, written in Rust and proved with Verus
against the contracts that stand beside the code.

| module | what it decides |
| --- | --- |
| `text` | searching, splitting, trimming and replacing text; decimal numbers |
| `m3u8` | which variant of a master playlist is followed; how playlists are rewritten; which replies refuse |
| `db` | what configuration values and database rows stand for; the channels that are always offered |
| `store`, `cache` | hash tables and clocks; the caches of streams, segments and playlists |
| `state` | the channels, the rules and the request headers that all requests share |
| `reply` | the replies to requests |
| `cctv` | the CCTV channels |
| `provincial` | the provincial channels: finding streams, serving them, and polling |
| `gateway` | which part serves a request; the list of all channels |
| `browser` | what the headless browser is told, and which of its requests is the stream |
| `native`, `startup` | what surrounds the native libraries and the browser's program |
| `foreign` | what is believed of other crates and of `std` |

Work that waits for something outside (a reply, a page, a turn) is split into steps: a function of the
library says what to do next, and takes the outcome to say what follows. `app/` carries the steps out.

`app/` is the program: command line, HTTP server and client, SQLite, the browser's process and the
native libraries. `tests/` runs the library.
