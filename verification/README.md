# inspection_stats

Collects the monthly food-safety sampling notices that provincial and city
market-regulation bureaus publish, downloads their qualified-product
attachments into `YYYY-MM/` (as `地区-第N期.ext`, `-N` added for further
copies), and searches the downloaded files for configured keywords,
writing the hits to `result.db`.

The library under `src/` is verified with Verus: every public function
states its result in `requires`/`ensures` over spec functions, and
`src/laws.rs` proves the properties that relate several of them.

- `text`, `time`: character-sequence operations, calendar arithmetic and
  timestamps.
- `html`, `crawl`, `json`, `http`: listing and article pages, the crawl
  decisions (which links, which attachments, which file names), the
  Jiangxi JSON API, user agents, jitter and the download state machine.
- `search`, `docbin`, `archive`, `codec`, `ocr`: file kinds, text
  extraction from Word, legacy Office, workbook and PDF content, snippets
  and hits.
- `config`, `log`: configuration files and log lines.
- `pattern`, `archive`, `codec`, `json` hold the calls into `regex`,
  `zip`, `cfb`, `quick-xml`, `encoding_rs` and `serde_json`, each behind a
  function whose contract is trusted and names what the crate returns.

`app/` is the command-line program around the library: argument handling,
HTTP with `reqwest` and `tokio`, files, the PDF and spreadsheet readers,
the OCR command and the SQLite output.
