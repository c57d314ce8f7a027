# net_power

The decisions of a desktop proxy manager, verified with Verus against the
contracts each function states: HTTP
proxying (request heads, chunked bodies, keep-alive, header and body
rewriting), TCP and UDP forwarding plans, SSH tunnels (SOCKS5 parsing,
known-hosts decisions, authentication steps, jump chains, reconnect
back-off), local tool HTTP services (routes, static directories, listings),
system proxy commands and status parsing for Windows, macOS and Linux,
service and tool-service managers, validation of every input, the rows and
log lines the store keeps, and secret encryption.

## Layout

- `src/` — the verified library. Each module states its contracts over
  spec functions and views; the laws that relate several functions are
  public proof functions named `law_*`. Calls into `aes-gcm`, `base64`,
  `rand`, `serde_json`, `httparse` and `url` go through small trusted
  wrappers. Their contracts claim only what those crates' sources and
  documentation show. Where a result takes pages to state (what serde_json
  parses from bytes and prints for a document, what the ciphers compute,
  how `url` and `httparse` read their input), it is named by a spec
  function without a body, and the library's contracts speak of that name.
  Of random bytes nothing is claimed.
- `tests/` — ordinary Rust tests of the library on concrete values.
- `app/` — a command-line shell: it runs the system proxy commands, serves a
  static directory, forwards TCP and UDP, and prints the LAN address, doing
  the process, file and socket work the library leaves to its caller.
