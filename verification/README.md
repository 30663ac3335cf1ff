# paddledesk

The core of PaddleDesk, a desktop client for the PaddleOCR services of AI
Studio, written in Verus. Every function in `src/` carries a contract; Verus
proves all of them except five small wrappers around the standard library,
`scraper` and `sys-locale`, whose contracts are trusted.

- `src/` — the verified library: the result model and its normalisation from
  the services' JSONL, the export formats, the client's protocol with the OCR
  service (page ranges, replies, polling, the resumable run of a document as a
  state machine), the task queue's decisions, settings and hotkey validation,
  the screenshot-hotkey change as a state machine, the result history, the
  native texts, and what the front end is told.
- `tests/` — tests of the library on concrete values.
- `app/` — the shell around it: JSON and SQLite encodings, the HTTP client,
  the credential store, the queue's workers and the event bridge. It performs
  the I/O that the library's decisions ask for.

Coordinates and page sizes that the services send as 32-bit floats travel
through the library as their bit patterns; `app/` converts them.
