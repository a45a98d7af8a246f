# ghostbay

An S3-compatible object store: an HTTP gateway over a SQLite catalog and a
local file store, with AWS Signature Version 4 authentication and an
administration command line.

The library in `src/` holds the store's logic, verified with Verus:

- `sigv4` — canonical requests, strings to sign, signing keys, signatures,
  signature validation, presigned URLs and the `Authorization` header parser.
- `auth` — access keys (generation, rotation, expiry), request authentication
  and the catalog rows of keys.
- `catalog` — buckets and objects, their catalog rows and listing limits.
- `api` — bucket-name validation, `Range` parsing, error statuses and codes,
  and the listing responses.
- `engine` — where objects live on disk, content types, byte ranges and ETags.
- `gateway` — server settings, listener addresses, HTTPS redirects and the
  security headers.
- `string_map` — an insertion-ordered map of strings with distinct names.
- `text`, `crypto`, `clock`, `codec` — strings, hashing and encodings, time, and
  the UUID and JSON texts of rows, the last three over `ring`, `hex`,
  `urlencoding`, `md-5`, `rand`, `chrono`, `uuid` and `serde_json`.

`app/` is the program around it: the axum server, the sqlx catalog, file I/O and
the clap commands (`serve`, `admin key ...`, `bucket ...`). `tests/` runs the
library on concrete values.
