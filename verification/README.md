# axum-health

A health service in the style of Spring Boot's actuator. It checks URLs, host
names, disks and plugins, and answers over TLS with one status for the whole.

The library under `src/` holds the rules, each with a contract that Verus
proves: what every check reports, how the reports add up, how plugins are
loaded and what they may connect to. Functions that need the network or the
file system in between are asked what to do next and told what came of it, so
that the rules stay free of input and output.

| Module | Subject |
|---|---|
| `http`, `dns`, `disk`, `ldap`, `ping` | the built-in checks |
| `plugin`, `loader`, `permission` | health plugins, their loading and their TCP permissions |
| `health`, `components`, `status` | adding up the reports |
| `resources`, `listener`, `tls`, `config` | routes, accepting connections, certificates, settings |
| `address`, `notation`, `text` | IP addresses, how they are written, and text |

The program under `app/` does the rest: it reads the configuration file, makes
the lookups, requests and system calls, runs plugins as WebAssembly components
and serves the answers.
