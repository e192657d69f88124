# shinsho_rss

Gathers the newest titles of eight Japanese paperback series (Iwanami, Chuko,
Kodansha, Chikuma, NHK) into one RSS 2.0 feed, keeping what it has seen in
`state.json`.

- `src/` is the library, verified with Verus: white-space folding, author
  marks and ISBN digits (`text`), calendar dates and their RSS form (`date`),
  linked-data ISBN lookup (`json`), the book store keyed by id (`book`), the
  feed order and entries (`feed`), and the reading of each publisher's pages
  (`sources`, with `html`, `pattern` and `links` around the `scraper`, `regex`
  and `url` crates).
- `app/main.rs` is the program: it fetches the pages and the Iwanami search
  answers, reads and writes the files, and hands plain values to the library.
- `tests/` runs the library on concrete pages and values.
