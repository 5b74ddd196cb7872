# OctoGet

A distributed download accelerator: every node can start downloads and can
serve byte ranges to its peers, so a file is fetched in pieces through many
machines at once.

## Layout

- `src/` is the verified core, checked by Verus: how a file is cut into
  pieces and which piece a worker fetches next (with tail-latency
  re-dispatch), the task life cycle and its persistence, the peer table and
  its health rounds, the assembly and integrity check of streamed pieces,
  the HTTP resolution decisions, configuration defaults, and the small text
  rules these share.
- `app/` is the node around it: the gRPC peer service, the REST API and web
  UI, file and network I/O, timers, and the floating-point speed figures
  (speed averages, rate limits, the slow-peer yield). Its other decisions
  are calls into the library.
- `tests/` exercises the library on concrete values.

The peer table and the table of tasks handed over by other nodes are lists
with unique ids, kept in the order entries were added: a concurrent map
changes its contents through shared references, which Verus takes to be
unchanging, and a map keyed by strings has no contract that a proof could use.
The node takes the time stamps of chunks and speed samples from the monotonic
clock and passes them to the library's `_at` functions; the library's own
clock reading, used by `get_next_chunk` and `SpeedMonitor::add`, is the
system clock, since library code cannot keep the reference instant a
monotonic reading is measured from.

## Running

```bash
octoget --config config.toml
```

Without `--config`, `config.toml` is looked up in the working directory and
then next to the executable. The web UI's files (`index.html`,
`task_list.html`, `network.html`, `modals.html`, `style.css`, `app.js`,
`i18n.js`, `vendor/vue.global.prod.js`, `vendor/tailwindcss-browser.js`) are
read from the `frontend/` directory under the working directory; they do not
ship with this crate, and a missing file is logged and served empty.
