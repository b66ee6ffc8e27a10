# rust_bittorrent

A small BitTorrent client and tracker. The library under `src/` holds the
logic and is verified with Verus; `app/` holds the programs around it
(command lines, TCP and HTTP, files, tasks).

- `models`: the tracker's messages and the compact peer list format.
- `bt::torrent`: peer ids, torrent metadata, the handshake and the peer
  wire messages.
- `bt::http`: what the client asks a tracker.
- `bt::peer_download`: piece requests, fetching a piece block by block and
  checking its SHA-1 hash, readying a connection, joining the pieces.
- `bt::peer_upload`: the decisions of a seeding session.
- `tracker`: shared files, the peers of each info hash, and the tracker's
  answers; `ipv4` reads the addresses peers register with.
- `single_peer`: a simpler client that only gets as far as being unchoked.
- `codec`, `text`: big-endian integers, URL, hex, decimal and UTF-8 text.

`app/main.rs` runs the client by default, the tracker with `tracker <port>`,
and the simpler client with `single-peer --file <torrent> --output-path <path>`.
