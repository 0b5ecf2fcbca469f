# trusti

A small BitTorrent client whose logic is verified with Verus.

- `src/` is the library. It holds the metainfo and its info hash, the tracker
  URL and the tracker's reply, the handshake and the messages of the peer wire
  protocol, the rules by which blocks are requested and put together, what a
  worker does with the pieces it is asked for, and how the pieces make up the
  file. Each function says in its contract what it returns, and the public
  proof functions say what holds of the library as a whole.
- `app/` is the program around it: files, sockets, threads and channels, and the
  types that serde reads.
- `tests/` runs the library together with the crates that it calls.

The modules `download_laws` and `download_run` state what a download as a whole
keeps to: every block is asked for once and in order, no more than five requests
wait at a time, and a peer that tells the truth leaves the whole piece behind.

The torrent file `debian-11.2.0-amd64-netinst.iso.torrent` is read from the
current directory, and the image is written next to it.
