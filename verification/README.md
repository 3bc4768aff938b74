# Databricks connector driver

The driver of a connector for Databricks SQL warehouses, written in Verus.

- `src/` is the library. Every function in it is verified against its contract:
  reading a connect request into a configuration (`config`, `settings`, `jdbc`,
  `url`), hiding secrets in messages (`secrets`), running a statement from its
  first response to its collected rows (`http`, `statement`, `rows`,
  `execution`), describing a catalog (`metadata`, `queries`, `ordered`), and
  answering calls (`driver`). `json` holds JSON documents and exchanges them with
  `serde_json`; `text` holds the text algorithms.
- `app/` is the shell around it: the native ABI, the HTTP client and the runtime.
- `tests/` runs the library on concrete values.

What is trusted about `serde_json`, `reqwest` and the standard library stands in
the doc comments of the items that call them.
