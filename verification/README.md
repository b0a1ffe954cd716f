# orjson core, verified

A fast JSON library for Python, with its logic written in Verus and proved
against its contracts.

- `src/json/`: the JSON reader. Positions and syntax errors (`error`,
  `read`), numbers (`number`), the deserializer that turns text into a list
  of events (`de`), the grammar it follows (`value`), the grammar of skipping
  a value (`skip`), reads of an expected kind (`typed`), and the proof that
  skipping and reading agree (`agree`).
- `src/deserialize/`: what `loads` does with its input: the input checks,
  the errors and their positions in characters, the reader run over the
  document, and what each number becomes (`number`).

Two options go beyond plain JSON: `OPT_BIG_INTEGER` writes and reads
integers beyond 64 bits exactly, as their decimal digits (the proof that
such digits read back as the same integer is in `deserialize::number`), and
`OPT_NAN_AS_NULL` reads the bare token `nan` as `null`.
- `src/encode.rs`, `src/dict.rs`, `src/array.rs`, `src/datetime.rs`,
  `src/numpy.rs`: the decisions that drive serialization: how each object is
  written, dict keys and their order, numpy rows, RFC 3339 dates and times.
- `src/module.rs`: the argument rules of `dumps` and `loads`.
- `src/gil.rs`, `src/cache.rs`, `src/bytecount.rs`, `src/utf8.rs`,
  `src/yyjson.rs`, `src/opt.rs`, `src/exc.rs`, `src/error.rs`: smaller parts.
- `app/`: the Python extension module around the library: the C API calls,
  building Python objects from events, and writing JSON through serde_json.
- `tests/`: tests of the library on concrete values.
