# rustployd

The decision logic of a single-node PaaS daemon, verified with Verus: the
deploy pipeline and its recovery after a restart, the deploy queue, ingress
routing (domains, external ports, round-robin, ACME challenges), Compose
stack rewriting, container and image naming, external port allocation, the
firewall helper's rules, the HTTP API's routing and authentication, Git
provider URLs and OAuth replies, and the text the daemon logs and stores.

## Layout

- `src/` — the library. Every function carries a contract over
  mathematical models (`Seq`, `Map`, spec functions), and the properties
  that span several calls are stated as `lemma_*` proof functions:
  - `deploy/` — states and their stored names, the step plan of each
    state, the outcome of a step, pre-deploy checks and healthchecks,
    rollback causes, recovery and reconciliation, the queue, environment
    layering, Git clone arguments and output, the build and rollback
    decisions;
  - `docker/` — container and network names, Compose documents and
    arguments, choosing the container that receives a stack's traffic;
  - `ingress/` — the routing tables, the plain-HTTP listener's answers, TLS
    renewal and ACME order polling;
  - `api/` — request routing and tokens, webhooks, OAuth callback pages and
    states, socket frames;
  - `fw_helper.rs`, `firewall.rs` — both sides of the firewall helper;
  - `ports.rs`, `health.rs`, `logs.rs`, `maintenance.rs`, `db.rs`,
    `env_backup.rs`, `git_providers/`, `text.rs`.
- `tests/` — tests run against the compiled library.
- `app/` — the `rustployd-fw` firewall helper program: its socket, the
  configuration file and the `ufw` processes, around the library's
  decisions.
