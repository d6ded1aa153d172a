# posible

The verified core of a desktop YouTube Music player.

- `src/` is the library, checked by Verus: the play queue and its shuffle,
  the decisions of the audio engine, the readers of what InnerTube answers
  (search, radio, browse pages, playlists, the `player` endpoint), the choice
  of an audio stream, the download by ranges and the pruning of the on-disk
  cache, synced lyrics, thumbnails, the output of `yt-dlp`, and the small
  rules of the local library and the settings.
- `tests/` runs the library on concrete inputs.
- `app/` is a command-line front end: it makes the HTTP requests, runs
  `yt-dlp`, reads and writes the disk and SQLite, and prints what the library
  made of the answers.
