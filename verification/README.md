# firescan

The core of FireScan, a desktop manga reader and downloader, written in Verus: the
search-result scrapers of the supported sites, the chapter and page selection of the
built-in downloaders, the download status registry, the library's bookkeeping (chapter
counts, covers, paging, imports) and the reader's chapter listing, each with a contract
that Verus proves.

## Layout

- `src/` — the verified library.
  - `text.rs` — strings as character sequences: searching, trimming, splitting, numbers.
  - `scrape.rs` — the markup, regular-expression and URL calls (through `scraper`,
    `regex`, `reqwest::Url`, `urlencoding`), covers and links of result cards, and
    `WebScraper`.
  - `cards.rs`, `search.rs` — reading search results from MangaLivre and Niadd pages,
    search addresses, page outcomes, merging, details pages.
  - `download.rs`, `pages.rs`, `chapters.rs`, `media.rs`, `tools.rs` — what the
    downloaders decide: folders, chapter requests, chapter links and page images,
    progress, file names, the external downloader's arguments and location.
  - `registry.rs`, `downloads.rs` — the download status registry and the downloaded
    items page.
  - `library.rs`, `local.rs`, `reader.rs`, `config.rs` — library records, repository
    paging, local imports and covers, the reader, sources and settings.
  - `json.rs` — JSON values (read through `serde_json`) and the chapter count of a
    folder's `index.json`.
  - `properties.rs` — laws that relate several functions.
- `tests/` — tests on concrete pages and values.
- `app/` — the Tauri application around the library: commands, network and disk access,
  the database, and the serializable copies of the library's records.
