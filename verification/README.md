# binglish

The core of a desktop vocabulary trainer that puts a word card on the
wallpaper every day, verified with Verus.

- `src/` is the verified library: the spaced-repetition review store
  (`review_store`), the word books (`word_db`), the word list pages, word
  cards and tray menu, the schedulers' decisions (next daily update, rest
  reminder), idle-time parsing and the text routines they share.
- `app/` is the desktop shell around it: windows, tray, timers, files,
  network, fonts and image drawing.
- `tests/` runs the library on concrete values.
