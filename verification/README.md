# slint_dart

The logic behind Slint's Dart bindings, verified with Verus: the generator
that packs compiled `.slint` files into the module a generated Dart wrapper
embeds, and the runtime decisions the native library makes around the Slint
interpreter.

- `src/` is the verified library:
  - `scan`: `@image-url` references and font imports in `.slint` sources;
  - `paths`: built-in paths, the common directory, virtual paths;
  - `bundle`: import and image rewriting, font and image assets, the module;
  - `blob`: the gzip + base64 framing of a module;
  - `module`: reading a module back, the interpreter's file lookup, the
    component choice, the per-process module cache;
  - `options`: generator options, the stages of a generation, its JSON
    envelope, the files to watch;
  - `values`, `convert`: typed values to and from JSON (images, arrays,
    structs);
  - `runtime`: member lookup, argument lists, envelopes, translations;
  - `json`, `strmap`, `text`: the JSON value, a string map, text helpers.
- `tests/` runs the library on concrete inputs.
- `app/` is the unverified shell: the compiler pipeline, file reading, the
  C ABI for `dart:ffi`, and conversions to and from `serde_json` and the
  interpreter's values.
