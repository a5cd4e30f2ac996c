# ztunnel

The decisions of a sandbox proxy, as a library that Verus verifies.

| Module | What it holds |
| --- | --- |
| `proto`, `rbac`, `firewall`, `net`, `text` | messages, connections, filter rules, addresses, texts |
| `traffic_policy` | validation of policies, their evaluation on TCP connections, their packet filter rules, and the store of shared policies |
| `sniff` | the search for a server name in the first bytes of a TLS connection |
| `watcher` | a directory snapshot, how it is scanned and published, and when it is scanned again |
| `sandbox`, `encoding`, `paths` | sandbox tokens: their encoding, their keys and the lookups on them |
| `admin` | how the admin API's Unix socket is bound, served and cleaned up |

Functions state their results exactly, over spec functions in the same module. What holds of
several functions together is stated in public proof functions.

`base64`, `bytes`, `ipnet` and `rustls` do their work behind small functions marked
`#[verifier::external_body]`, whose doc comments say what is believed of them.

`app/` performs the I/O: it reads, walks, binds, sleeps and serves as the library's state machines
ask, and hands back what came of it.
