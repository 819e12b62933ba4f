# proto-build

Builds Rust code from the proto files of the Cosmos SDK, ibc-go, quicksilver and osmosis.

* `src/` is the library. It decides what is compiled and how, which files are picked up, what
  becomes of the emitted code, and in which order all this is done. Every function has a contract
  that Verus proves; functions named `law_...` state what holds of the library as a whole.
* `app/` is the program: it walks directories, reads and writes files, and runs `git`, `rustfmt` and
  the proto compiler as the library says.
* `tests/` runs the library on concrete values.

The one thing taken on trust is what `regex::Regex::new` and `Regex::replace_all` do; it is stated
at `replace_all` in `src/replace.rs`.
