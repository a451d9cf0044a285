# nzbdav

The verified core of a WebDAV server that streams Usenet content.

`src/` decides; it does no I/O. A function that rests on a query, a fetch or a clock takes
what came back as an argument and returns what is to be done: a response, a list of writes,
the next request. Every function states in its contract what it returns for every outcome,
and Verus proves it. The functions named `law_...` state what holds across several calls.

- `dav/`: paths, nodes and the WebDAV methods; `laws.rs` relates them to the tables
- `sab_api/`: the SABnzbd-compatible API
- `queue_manager.rs`: which queue items are processed, and how they are archived
- `pipeline/`: what becomes of a queue item, from its NZB file to the items it leaves
- `stream/`: failover between servers, reading segments in order, seeking
- `db.rs`: the writes, and what they do to the tables
- `nzb.rs`, `subject.rs`: what the NZB parser makes of a file, and which files it can be given
- `models.rs`, `error.rs`, `ids.rs`, `seed.rs`, `frontend.rs`: the data model
- `text.rs`, `num.rs`, `octets.rs`: texts, numbers and bytes

`app/` is the program around it: HTTP, the database, connections to Usenet servers, and
the computations in floating point. `tests/` runs the library on concrete values.
