# PacketLens core

PacketLens is a Windows packet analyzer (Tauri desktop app). This crate
holds its core as a Verus-verified library, `packetlens`:

- `protocol` — one-line summaries of captured Ethernet frames (addresses,
  ports, protocol name, TCP flags), with frame slicing done by `etherparse`.
- `process` — attribution of packets to local processes, and thereby their
  direction, from the socket owner tables.
- `flow` — the bounded flow table: packets grouped into connections, traffic
  counted per direction, stale flows forgotten, an overfull table compacted,
  and the connection and process snapshots built from it.
- `storage` — pcapng framing (section, interface and enhanced packet
  blocks), segment rotation, index flushing, disk-quota cleanup order and
  the stored rows.
- `capture`, `service` — the capture driver's parameters and results, the
  capture status and counters, and the capture loop's decisions.
- `ranking`, `text`, `clock`, `model` — shared helpers and the data types.

`app/` is the desktop shell around the library: Tauri commands, the capture
and batch threads, the Npcap driver loaded with `libloading`, the Windows
IP Helper owner tables, and the SQLite session store (`rusqlite`).
`tests/` exercises the library.
