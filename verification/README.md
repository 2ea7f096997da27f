# doc_scanner_core

A local document-to-JSON conversion engine for bank statements and grocery
bills, written in Verus: the library's logic carries contracts that the
verifier proves.

- `src/` is the verified library: input validation and file-type sniffing
  (`input`), text extraction (`extract`), the keyword classifier
  (`classify`), structuring (`structure`), merchant normalization and
  taxonomy matching (`taxonomy`), the conversion pipeline and its log record
  (`lib.rs`, `observability`), the seed-report aggregation with its CSV and
  SQL rendering (`seed_report`), and the character-level text primitives they
  share (`text`).
- `app/` is the `doc-scanner` command line around it: argument parsing, file
  and directory reading, the taxonomy config, JSON output and logging.
- `tests/` runs the library on concrete inputs.

Two design points:

- The PDF parser (`pdf_extract`) panics on some malformed documents, and a
  panic can only be caught outside the library. So `app/` runs the parser,
  turns a panic into a failed parse, and hands the outcome (the text, or the
  text of the error) to the library. From that point on every decision is
  the library's and verified: the sparse-text rule, the error codes, the
  pipeline. No verified function calls code that can panic.
- The seed report tallies merchants in a `Vec` of entries kept free of
  duplicate merchants (`MerchantTally`), not in a `HashMap` keyed by the
  merchant's name. vstd's specification of `HashMap` holds only for key
  types that satisfy `obeys_key_model`, which it establishes for integer
  and `bool` keys but not for `String`; with a `String` key nothing about
  the map's contents could be proved.
