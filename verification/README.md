# anime-dl

Efficient command line app for downloading and streaming anime, with its logic written in
Verus and proved against its contracts.

- `src/` is the verified library: episode numbers and URLs, ranges and selections, the
  episode and series pickers, the scraping of the archive's pages, the AniList watching list
  and progress rules, the configuration file, the proxy list, and the reading of the media
  player's output while streaming.
- `app/` is the program around it: the command line, the terminal prompts and tables, the
  HTTP requests, the files, and the media player.
- `tests/` runs the library on concrete values.

Usage:

```sh
adl download <entries>         # each anime in a directory named after it
adl stream -S <archive> <entries>
adl clean                      # delete the configuration
```

Streaming requires mpv or vlc. For AniList, set `ANIMEDL_ID` to the id of your API client,
or use the default one, `4047`.
