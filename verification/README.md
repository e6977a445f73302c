# spreadsheet

Reads, writes and updates XLSX and XLSB workbooks. The library under `src/` is
verified with Verus: every function states what it returns or changes in
`requires` and `ensures`, over plain models of cells, rows, parts and documents.

- `src/` holds the formats: BIFF12 records, XML scanning and patching, shared
  strings, styles, the two writers, the two readers, the two updaters, and the
  protocol by which a file takes the place of another. It touches no files: parts
  come in and go out as bytes, and a number that has to be read or shown is asked
  for and supplied.
- `app/` moves the bytes: archives, files, staging, and the conversion of doubles.
- `tests/` runs the library on concrete workbooks.

Laws that relate several functions stand beside them as public proof functions
whose names begin with `law_`: what is written reads back, what is updated leaves
everything else as it was, and what fails leaves no trace. The modules whose names
end in `laws`, `markup`, `read` or `update` hold the larger ones.

Calls into other crates stand behind functions marked
`#[verifier::external_body]`; the comment above each says what is taken on trust.
