# rusty

A small HTTP server configured by routes, services and modules, with its
routing and response logic verified by Verus.

- `src/` — the verified library:
  - `text`: splitting, trimming, replacing and number formatting on strings,
    each stated over `Seq<char>`;
  - `assoc`: string-keyed entry lists used as maps;
  - `pattern`: the trusted interface to the `regex` crate;
  - `routing`: choosing the location that serves a request path, with the
    law that characterizes the choice;
  - `route_table`: the routes that accept a host and port, the locations they
    offer, and the ports to listen on, shared by both routers;
  - `request`: the header and host parts that routing reads;
  - `basic`: the plain router (TOML configuration, fixed responses);
  - `modular`: the module-based server (routing, reading requests within a
    size limit, answering with status pages or modules, and the chain of
    hand-overs between services, which ends);
  - `web_module`: the decisions of the web-server module.
- `app/` — the program: argument handling, configuration files, sockets,
  threads, module libraries and the file system.
- `tests/` — tests of the library on concrete values.
