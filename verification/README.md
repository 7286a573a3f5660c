# FeedLizard

A local-first feed reader for the Linux desktop. It reads RSS, Atom and JSON
feeds, keeps subscriptions and articles in a library of its own, shows articles
to scroll, on pages or as a book, and backs up the list of subscriptions,
encrypted, on Nostr relays.

`src/` is the library: everything that decides or computes, with contracts that
Verus proves.

- Reading: `parser`, `json_feed`, `xml`, `json`, `dates`, `markup`, `images`,
  `html`, `reader`, `pages`, `opml`.
- Identity and addresses: `identity`, `web`, `unique`.
- The library: `library`, `records`, `articles`, `intake`, `ingestion`,
  `retention`, `subscriptions`, `schema`, `search_index`, `sorting`, `order`,
  `domain`.
- The network: `network`, `refresh`, `discovery`, `page_discovery`, `pictures`.
- Backups: `backup`, `history`, `nostr`, `packing`.
- The program: `worker`, `network_worker`, `nostr_worker`, `desk`, `signals`,
  `dialogs`, `presentation`, `integration`, `launch`, `directory`, `cli`.

The functions that call other crates stand behind wrappers with contracts that
are believed; the doc comment of each says what it claims.

`app/` is the program around the library: SQLite, HTTP, relays, the keyring,
D-Bus, threads and the windows in GTK. `tests/` holds the tests.
