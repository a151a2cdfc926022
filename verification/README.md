# boson_spectra_telemetry

Spectra-backed telemetry shaping for Boson's ops signals, verified with Verus.

`src/` is the verified library:

- `text` – character-level primitives: Unicode whitespace trimming, ASCII lower-casing,
  string equality and list membership.
- `hashing` – the stable `h` + 16-hex-digit token for high-cardinality label values.
- `sanitize` – redaction of credential values in error text and clipping to 512 characters.
- `json` – the JSON value model event payloads and sink fields are read in.
- `ops_log` – which metric labels and event fields leave the process, and in which form.
- `sink_forward` – which typed recorder or logger a raw emit goes to, and the row read
  from its fields (`field_str`, `field_i64`, `i64` parsing).
- `install` – `SpectraOpsLog` and the ops log chosen for a `BOSON_TELEMETRY` setting.

`app/` holds what talks to the outside: the `boson_telemetry::OpsLog` adapter, the
environment read and process-wide install, emission through Spectra, the Spectra schema
macros, and the conversion between `serde_json::Value` and the library's `JsonValue`.
