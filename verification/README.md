# fastsearch

A web scraper and search engine whose logic is verified with Verus.

- `src/` is the verified library: text handling (`text`), URLs through the
  `url` crate (`urls`), HTML selection through the `scraper` crate (`html`),
  page reading (`parser`, `models`), stored pages and
  their RFC 3339 scrape times through `chrono` (`records`), crawling decisions and sitemaps
  (`crawler`), statistics (`stats`), configuration (`config`), the command
  line (`cli`), query lemmatization (`lemmatization`), the integer parts of
  the ranking scores (`scoring`), XML text (`engine`) and what the web
  interface shows (`ui`).
- `app/` is the program around it: HTTP requests, SQLite storage, the web
  interface, the floating-point scores and `main`.
- `tests/` runs the library on concrete inputs.
