# aidoku_sources

The logic of a set of Aidoku manga sources, written in Verus: the urls and
request bodies a search sends, the way listings, details pages, chapter lists
and page lists are read into manga and chapters, deep links, dates, content
ratings and readers, and the few binary formats some sources need (Widevine
device files and license requests, JPEG and WebP headers, obfuscated and
encrypted paths). Each function states what it returns in its `ensures`, over
spec functions on sequences, and Verus proves it.

Layout:

- `src/` holds the verified library, one module per source (`atsumaru`,
  `batcave`, `dynastyscans`, `kagane`, `mangakatana`, `onisaga`, `soraraw`,
  ...) and shared modules: `model` (manga, chapters, filters, deep links),
  `text` (string functions with their specifications), `url` (percent
  encoding and query strings), `json` (JSON text and the serde_json calls),
  `dates` (the chrono calls).
- `src/**` also holds the laws of the library as public proof functions
  (`lemma_*`), such as the round trips of the Widevine encoders, the
  involution of the AES-CTR path decryption, and the sort of a chapter's
  pages.
- `tests/` runs the library on concrete values.
- `app/` is the host side: serde and protobuf records turned into the
  library's types, the RSA signature of a license challenge, and the floating
  point values the app shows.

Requests and HTML parsing belong to the Aidoku runtime; the library takes the
plain values it reads (texts, attributes, JSON) and hands back plain values.
