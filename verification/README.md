# llm-relay

A lightweight HTTP relay for LLM provider APIs. Requests to
`/proxy/{relay-api-key}/{provider}/{path...}` are checked against the relay's own API key,
admitted under a concurrency limit, and forwarded to an allowlisted provider base URL; the
upstream status, headers and body stream back to the client.

## Layout

- `src/` — the library, verified with Verus:
  - `config.rs`: the configuration, its defaults, byte sizes (`8MB`, `2 gib`) and the
    validation rules, including the refusal of private or local provider targets;
  - `providers.rs`: providers by name, kept in name order;
  - `ip.rs`: IPv4 and IPv6 literals and which of them are private or local;
  - `url.rs`: the parts of a URL, as the `url` crate parses them;
  - `paths.rs`: paths resolved beside the configuration file;
  - `cli.rs`: the command line;
  - `security.rs`: key comparison, key generation, and the steps that load or create the
    key file. The comparison is proved to be equality of the two keys; that its time
    depends only on their lengths holds by construction (it reads every byte up to the
    longer length, with no early exit) and is not proved;
  - `proxy.rs`: authorization, admission, header forwarding, upstream URLs, request ids and
    the response headers;
  - `error.rs`: configuration and relay errors, their texts and HTTP statuses;
  - `text.rs`: the string operations that the rest is written with.
- `app/` — the program around it: files, the YAML parser, the HTTP server and client,
  logging and `systemctl`.
- `tests/` — tests of the library.
