# waf_rules

The request-classification core of a small web application firewall, written
in Verus. The library's logic is proved against its contracts; the calls it
makes into outside crates (regex, aho-corasick, globset, ipnet, base64,
zentinel-modsec) and into a few std text functions go through small wrappers
whose contracts state what those crates and std document, and which Verus takes
as given.

- `crs/` — OWASP Core Rule Set: `SecRule` parsing, value transformations,
  operators, request targets, transaction variables, and the rule set run
  through the ModSecurity engine.
- `grl/` — the GRL rule language: AST, canonical printer, built-in functions,
  the function registry, and the YAML-to-GRL converter.
- `rete/` — the RETE network: compilation into shared alpha nodes and guards,
  expression evaluation, the firing loop, and the decision an outcome stands for.
- `rule.rs`, `matcher.rs` — YAML rules and condition matching.
- `ruleset/` — the compiled YAML rule engine (validation, regex cache,
  first-match evaluation, rule files stored in Consul).
- `lists.rs`, `net.rs` — IP block and allow lists with CIDR networks.
- `proxy.rs` — circuit breaker, upstream routing, refusal responses.
- `seed.rs` — merging shipped default rules into stored rule documents.
- `store.rs` — the hot-swappable rule list and engine.

`app/` holds the `waf` binary: command line, HTTP proxy, file and Consul I/O.
`tests/` exercises the library on concrete requests and rules.
