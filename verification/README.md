# bgfreeze

A background-freeze daemon for rooted Android (Magisk / KernelSU / APatch): it
periodically finds the background processes of WeChat, QQ, Douyin and other
configured applications, freezes them (SIGSTOP, a restricted cpuset, renice) while
keeping their push processes running, and releases them when the application comes
to the foreground or during a grace period after it leaves. A small web UI shows the
status and the log and edits the configuration.

## Layout

- `src/` — the library, verified with Verus:
  - `engine.rs`: the freeze decisions of a cycle, the tables of frozen processes and
    of foreground times, the status view, and the laws the decisions obey;
  - `config.rs`: the configuration and its defaults;
  - `sys.rs`: reading `/proc` files and the cpuset writes;
  - `logger.rs`: the bounded in-memory log;
  - `httpd.rs`: reading a request off a connection, routing, API actions, the
    answer each request gets, response heads, static paths;
  - `cli.rs`: command-line options;
  - `text.rs`: character-level string operations with their specifications.
- `app/` — the program around the library: sockets, files, signals, locks, the
  clock, and JSON through serde.
- `tests/` — tests of the library on concrete values.
