# ttsmagic

Turns Magic: the Gathering deck lists from Deckbox, TappedOut and Archidekt into
objects for Tabletop Simulator, and serves them to signed-in Steam users.

- `src/` is the library: everything that decides or computes, proved with Verus.
  - `deck`, `scryfall` and `tts` load decks, look cards up and lay them out.
  - `web`, `frontend`, `types` and `notify` are the web site.
  - `user`, `secrets`, `config`, `files`, `s3`, `migrations` and `importer` are
    what the site stands on.
  - `text`, `decimal`, `hexadecimal`, `uuids`, `urls`, `json`, `html`, `imaging`,
    `sort`, `idmap` and `utils` serve the others.
- `app/` is the program around it: the database, the cache, the network, the file
  system and the browser.
- `tests/` runs the library.
