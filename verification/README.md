# startwrt_ctrl

Control-plane logic of a StartWRT router, verified with Verus.

- `src/` — the library:
  - `dot1x` — wired 802.1X: the configuration model (a port map kept in port
    order), reading it from and writing it to its UCI records, the RADIUS
    server section, the RADIUS user database derived from profile passwords
    and its JSON document, runtime status and log filtering. Proved: a
    written configuration reads back with the same enable bit, role, ports
    and port modes (a guest profile is read back by its VLAN tag, so as
    itself when no two profiles share a tag; a Core's upstream information
    is not persisted); the port map's read-after-write law; ports are kept
    in ascending order.
  - `satellite` — router role, the Core's registry of paired satellites
    (unique names and keys), transit addresses, the free listen-port
    allocator, pairing operations.
  - `vpn_site` — planning of the Core side of a site-to-site WireGuard
    tunnel over a model of the `network` and `startwrt` sections (types,
    names, typed contents, and the peer's lines); the runtime provisions the
    model and writes the plan it applied. Proved, of the model:
    re-provisioning is idempotent and leaves exactly one peer. The firewall
    zone and rule are the runtime's.
  - `commit` — the bounded retry policy for conflicting UCI writes.
  - `json` — JSON documents as plain values and their pretty-printed text.
  - `addr`, `text` — IPv4 text and character-level string helpers.
- `app/` — the runtime around it: UCI and JSON file I/O, ubus/logread,
  service reloads, and the serde/clap forms of the library's types.
- `tests/` — tests of the library.
