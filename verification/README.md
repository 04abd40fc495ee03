# notes_engine

The logic of a small notes server: files under a base directory are shown
to users according to per-user glob rules, Markdown notes are rendered to
HTML, and users sign in with bcrypt-hashed passwords kept in a CSV file.

- `src/` is the library, verified with Verus:
  - `logins`: logins, the append-only login table (the latest record of a
    name is in force), the default administrator, CSV records;
  - `admin`: signing in, changing a password, creating and promoting users;
  - `access`: per-user glob rules and the patterns that list a user's notes;
  - `paths`: joining URL segments, path order, sorting without repeats;
  - `handlers`: dispatch, showing a note by its extension, Markdown;
  - `templates`: the data of the page templates;
  - `user`, `sessions`, `config`: session values, sessions, configuration.
- `app/` is the iron web server around it: requests, sessions, files,
  templates.
- `tests/` runs the library on concrete values.
