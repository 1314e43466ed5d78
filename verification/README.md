# apirunner

The verified core of an API test runner, written in Verus.

- `src/` is the library. Every function in it is verified against its
  `requires` / `ensures`: authentication plugins and chains, event filtering,
  storage and transactions, dependency ordering, task distribution, data
  sources and transformation pipelines, JSON assertions (path, structure and
  schema), configuration merging, diffing, reloading and secure values, alert
  lifecycles, and Postman/OpenAPI import and export. Calls into outside crates
  (regex, base64, aes-gcm, argon2, jsonpath-rust, uuid, serde_json) stand
  behind small trusted wrappers whose contracts say what the crates promise.
- `app/` is the command-line program around the library: argument handling,
  file, network and keyring access, the configuration watcher, serde forms of
  the library's types, and the few computations done with floating-point
  numbers.
- `tests/` exercises the library through its public interface.
