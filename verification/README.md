# unifi-voucher-proxy

A UniFi Network Integration API key inherits every right of the admin that
created it. This proxy holds the real key; clients get their own tokens, which
can list sites, and list, create and revoke hotspot vouchers, on the sites you
name, within the quotas you set, with every call written to an audit log.

- `src/` is a Verus library. It decides everything: who is calling, what they may
  do, what goes to the controller, what comes back, and what the logs say. Each
  function has a contract, and what holds of the proxy as a whole is stated and
  proved beside the functions that it is about.
- `app/` is the program around it: the command line, the configuration file, TLS,
  HTTP on both sides, the GraphQL schema and the log.
- `tests/` runs the library.

What is trusted rather than proved stands in `crypto.rs`, `json.rs`, `moment.rs`,
`ratelimit.rs` and `text.rs`: the calls into the crates for hashing, JSON, dates
and rate limits, each with the contract that the rest relies on.
