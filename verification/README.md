# srv

A static file server for local development and LAN sharing, with live
reload, directory listings and a QR code for the network URL.

`src/` is the verified library (Verus): request-path decoding and the
traversal check, directory-listing HTML, the response policy (custom headers,
CORS, `Cache-Control`), which file-system events reload browsers and how
reloads are debounced, the startup URLs and banner, and the choice of root
and port. `app/` is the program around it: argument parsing, the HTTP server,
capability-based file access and the file watcher.

Modules of the library:

- `path`: Unix path components, prefix stripping, hidden (dot) names.
- `encoding`: percent-decoding and -encoding, lower-casing.
- `order`: code-point order of text.
- `directory`: the request path to list (refusing `..` and hidden names),
  HTML escaping, the fallback steps.
- `listing`: listing pages: hidden entries left out, entries ordered by
  name, file sizes shown.
- `policy`: header parsing, `Cache-Control`, the headers a response gets.
- `reload`: relevant events, ignored trees, the reload debounce.
- `output`: IP addresses, URLs, the startup banner and QR code.
- `backend`: file metadata and bounded reads.
- `server`: the served root and the port search.
- `cli`, `request`, `text`: settings, request methods, text building blocks.
