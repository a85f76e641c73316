# js_cgi

A web server that serves the files of a directory. A page that begins with
`<!doctype server>` is rendered first: every `<script server> ... </script>` in
it is run by a JavaScript engine, and what the script wrote with `write(...)`
takes its place. A script that fails leaves a remark in its place, and the rest
of the page stays as it is.

- `src/` is the library, verified with Verus: how a request is answered, what
  scripts see of it, where the scripts of a page stand, and what the page looks
  like with their output. The calls into `regex`, `rquickjs`, `http` and `std`
  that it rests on are marked `Trusted` where they are declared.
- `app/` is the server: listening, reading files, and the script variables that
  reach outside the program (`fs` and `__log`).
- `tests/` runs the library, with the real engine.

Scripts find the variables `REQ`, `RES`, `fs`, `path`, `COOKIE` and `SESSION`,
and the functions `write` and `console.log`.

The server reads `STATIC_DIR` (default `./public`) and `PORT` (default 3000).
