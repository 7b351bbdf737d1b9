# extension_nsfw

An adult source pack for the nomanga manga reader — nHentai, Hitomi.la,
MadaraDex and E-Hentai — whose logic is a Verus-verified library.

- `src/` is the verified library: reading every site response (HTML through
  `scraper`, scripts through `regex`, JSON records, binary `.nozomi` id lists),
  building every request URL, the listing-cursor, image-key and page walks,
  request budgets, each source's declaration, settings, filters and homepage,
  and the records handed to the host. Each public function states its
  result exactly over spec functions; the calls into `regex`, `scraper` and the
  few std functions vstd does not specify sit behind small trusted wrappers in
  `src/pattern.rs`, `src/html.rs` and `src/text.rs`.
- `app/` is the plugin around it: the host's `Source` trait, requests (the
  library's walks say what to fetch next), reading stored settings, cookies,
  serde's derives on the JSON records, query encoding, and the float parsing
  of ratings and chapter numbers.
- `tests/` exercises the library on concrete pages and values.
