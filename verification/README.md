# guide

The logic of a campaign assistant for tabletop game masters, written in Verus:
the decisions of ingesting rulebooks and campaign PDFs (page text, chunking,
navigation, story extraction plans, where lore is stored), reading character
sheets, routing requests to language models, and assembling the prompts
around them. The library does no I/O: rendering, model calls, the database
and the vector store are left to the caller.

## Layout

- `src/` — the verified library.
  - `text`, `split`, `numparse`: character-level string work (UTF-8 lengths,
    trimming, splitting, integer parsing) with specifications.
  - `extractor`, `chunker`, `navigation`: page text clean-up, text-layer
    headings, chunking documents into sections, table-of-contents and index
    detection, page-offset detection.
  - `form`, `sheet`, `ocr`: AcroForm fields of fillable PDFs (through
    `lopdf`), parsing character sheets from form fields or OCR replies.
  - `pipeline`, `story`: chapter grouping, windowed story extraction and
    merging of extraction results.
  - `llm`, `embed`, `prompts`, `agent`: model routing, retries, reasoning-block
    filtering, embedding inputs, prompt texts and the agent's tools.
  - `store`, `slots`, `ids`: stored codes, character updates, spell slots,
    deterministic chunk ids (through `uuid`) and image data URLs (through
    `base64`).
- `tests/` — tests run against the compiled library.
- `app/` — the unverified edge: serde copies of the library types, JSON
  conversion of model replies, blocking retries and floating-point helpers.

Every function in `src/` is verified against its contract except a few
`external_body` wrappers around calls into std, `lopdf`, `serde_json`,
`uuid` and `base64`; their contracts say what the crate's documentation and
source promise, and each names the function it calls.
