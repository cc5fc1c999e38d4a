# ferrous

A local web console for calling APIs protected by Auth0 client credentials.
It keeps named credential profiles and saved requests in `config.json`,
caches one access token per profile, proxies HTTP calls with the profile's
bearer token attached, and decrypts Ansible vault values with `ansible-vault`.

- `src/` is the verified library (Verus): the profile store (`named`,
  `config`), the token cache and token fetch decisions (`token`), what each
  HTTP handler decides (`routes`), the text handling of pasted vault
  ciphertext (`text`) and properties across operations (`laws`).
- `app/` is the server around it: axum routes, file and process I/O, the
  HTTP client and the lock around the shared token cache.
- `tests/` exercises the library on concrete values.
