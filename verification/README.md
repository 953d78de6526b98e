# mw_log_subscriber

Typed logging from Rust towards a C++ DLT recorder, with its decisions
verified by Verus.

- `src/` — the verified library:
  - `levels`: log levels and filters, and their byte encodings on the C++ side;
  - `values`: typed log values (`LogValue`, `IntoLogValue`);
  - `ffi_value`: values tagged for the recorder, their debug text, and the
    lowering of a record's values;
  - `buf_writer`: a bounded message buffer that never splits a UTF-8 character;
  - `record`: the `[module:file:line] message` layout of a record;
  - `builder`: logger configuration;
  - `sample`: type-erased arguments formatted through a typed backend writer;
  - `decimal`: decimal text of integers.
- `app/` — the C ABI, the global logger, the `log` crate integration and
  console output.
- `tests/` — tests of the library on concrete values.
