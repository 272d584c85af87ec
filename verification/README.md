# dmlive

The session and configuration core of dmlive, verified with Verus.

## Firefox cookie fallback

To let dmlive recover an expired configured video-site session from a logged-in
Firefox profile, add the following to `config.toml`:

```toml
cookies_from_browser = "firefox"
```

The configured cookie is checked at startup. If it is no longer logged in,
dmlive reads unexpired cookies from Firefox's default profile, validates them,
uses them for the current process, and atomically updates `bcookie` in the
configuration. Firefox must still have a valid logged-in session. No browser is
started and no cookie values are written to logs. Only the minimal login fields
`SESSDATA`, `bili_jct`, and `DedeUserID` are retained in `bcookie`.

## Layout

- `src/`: the verified library.
  - `cookies`, `string_map`: cookie headers and their reduction to the login fields.
  - `firefox`, `profiles`, `ini`: the Firefox profiles and their cookies.
  - `file_path`, `unix_path`: file paths in general, and those of Unix.
  - `chrome`, `browser`: the cookies of Chrome and Chromium.
  - `login`, `refresh`, `save`: checking, replacing and saving the configured cookie.
  - `config`, `room`: the configuration of a run and the room that it is for.
  - `text`: text operations; `error`: the errors.
  - `outside`: calls into other crates, with the contracts that are believed of them.
- `app/`: files, processes, databases and the network around the library.
- `tests/`: tests of the library.

The theorems about the library as a whole are the public proof functions whose names
start with `law_`.
