# tano

A terminal reader for 5ch-style bulletin boards: board menu, thread lists,
threads, search, favorites, read marks, and posting replies.

The library under `src/` is written in Verus and verified.  It holds

- the text formats the reader speaks: the board menu (`boards`), the thread
  list `subject.txt` (`threads`), DAT logs (`posts`), the local caches of
  all three, the list files and settings (`lists`), Shift_JIS form bodies
  (`sjis`), the post protocol (`posting`), image links (`image`) and ANSI
  terminal output (`ansi`);
- the state of the user interface and its operations: searching, the
  grouped board list, selection and scrolling (`state`, `reading`), the
  compose form (`compose`), loading and posting (`flow`), the text each
  screen shows (`display`), and what each key does (`keys`);
- laws that tie these together, as `law_*` proof functions: the board and
  thread caches read back what they write, and so does the post cache for
  posts without an ID (the ID is written after the date's separator and
  reads back as the start of the body); sorting keeps every entry, moves keep the
  selection on screen, erasing undoes typing, toggling a category twice
  restores it.  Favorites, read marks and collapsed categories never hold
  an entry twice.

`app/` is the program around it: the terminal, the network and the files.
It performs the `Request` and `Persist` each library step answers with,
and the `Action` each key asks for, and hands the outcome back.  `tests/` exercises the library.
