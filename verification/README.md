# frostlink

The verified core of a small reverse proxy. `src/` is checked by Verus;
`app/` is the program around it (sockets, TLS, files, the environment).

- `text` — `str` operations (`lines`, `trim`, `split_whitespace`, `split`,
  search, decimal numbers) over character sequences, each tied to a spec.
- `config` — the `Config` record, the configuration-file parser, and the
  selection of configuration files in a directory listing.
- `keyed` — `StringMap`, a text-keyed map used for sessions, the page cache
  and per-domain statistics.
- `statistics`, `global` — counters, request logs, and the logger.
- `request` — request text (UTF-8), header lookup, fixed answers.
- `dashboard` — dashboard routing, page access by session cookie, cached
  pages (looked up, or filled from the file) and style sheets.
- `api` — the JSON interface: login and the list of domains.
- `proxy` — where an HTTP or TLS request is forwarded.
- `tls` — a domain's certificate chain and key, read from PEM text.
- `colors` — terminal colour codes.
