# uhttp

A lightweight HTTP server toolkit whose decisions are verified with Verus.

- `src/` is the library. Each module states what it does in `requires` /
  `ensures` contracts that Verus proves:
  - `response`: building a response (status, version, ordered headers,
    extensions) with `http`'s validation rules, and the first error sticking;
  - `router`: route tables over `path_tree`, registration under base paths
    and middleware, dispatch by method, and the middleware chain;
  - `route_tree`: a `path_tree` tree kept together with the record of the
    routes inserted into it, which its lookups are stated over;
  - `middleware`: Basic authentication, permissive CORS, the logged status;
  - `file_server`: which file answers a path (never one outside the
    served directory), content type, content-encoding
    negotiation, entity tags and `304 Not Modified`;
  - `sse`: server-sent-event frames;
  - `websocket`: the opening handshake;
  - `text`: character helpers the rest relies on.
- `app/` is the server around it: hyper and tokio, request bodies, handler
  and middleware closures, file and socket I/O. It asks the library what to
  do and carries it out.
- `tests/` runs the library on concrete requests.
