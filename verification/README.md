# mochiOS App Store

The native App Store client of mochiOS. The catalog comes from `GET /v1/storefront` of the store's
server; set `APPSTORE_API_BASE_URL` to use another server. Off mochiOS the program is a preview
and requires `curl`.

- `src/` is the library, written and proved in Verus: addresses and requests, the fetching of
  responses, the rules for what is accepted, the download and the installation of packages, and
  what stands on the screen. Public proof functions whose names start with `law_` state what holds
  of the library as a whole.
- `app/` is the program around it: it talks to the network service or runs `curl`, reads JSON and
  draws the screen.
- `tests/` runs the library on concrete values.

What the proofs rest on besides Verus: `String::push` and `String::from_utf8_lossy` of the standard
library, and `ImageData` of ViewKit. Each is named where it is declared.
