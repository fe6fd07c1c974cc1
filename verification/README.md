# cross_platform_clipboard

A clipboard history: it records copied texts and images, keeps the newest
200 unpinned entries next to every pinned one, and lets the user pin, delete
and clear entries.

- `src/` is the library, verified with Verus: the history and its retention
  rule (`history`), recording with duplicate detection (`application`), the
  entry model and row reading (`domain`), content hashes (`hashing`), the
  clipboard watcher's decisions (`clipboard`), image previews (`preview`),
  legacy image files (`migration`),
  start-at-login and GNOME shortcut setup (`autostart`, `shortcut`), the
  window's texts and notifications (`ui`), and the text functions they share
  (`text`).
- `app/` is the program around it: SQLite storage, the system clipboard,
  files, processes and sockets.
- `tests/` runs the library on concrete values.
