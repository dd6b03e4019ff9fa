# dst-update-publisher

Publishes translated Don't Starve Together update announcements: it reads
the update feed, finds the latest PC update, looks its release up on the
update page, has a language model translate the announcement with the help
of a glossary built from the game's PO files, and publishes the result as
JSON on a Redis channel, once per build.

- `src/` is the verified library (Verus): the feed and page readers, the
  glossary index and its search, the translation exchange, the decisions of
  one run (`pipeline`), and the laws proved of them (`search_laws`, `rank_laws` and the
  proof functions beside the code they speak of).
- `app/` is the program around it: command line, environment, files, HTTP,
  Redis and the model's API.
- `tests/` runs the library on concrete values.
