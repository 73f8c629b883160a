# gho

A reader and extractor for Norton Ghost `.GHO` / `.GHS` disk images, written
in Verus: every parser, decoder and decision of the library carries a
contract that the verifier proves.

- `src/` — the library. `fastlz` (the Z1 block decoder), `ghost11` (11.x /
  12.x record streams, partition extraction), `ghostold` (pre-11.x dirent
  walk and file extraction), `mbr`, `span` (joining multi-volume images),
  `safety` (safe output names), `format` (format detection), `commands`
  (decisions of the command-line tools) and `tui` (state, key handling,
  views, snapshot diff and widget text of the terminal browser). All of it
  works on bytes in memory.
- `app/` — the `gho` command: argument parsing, file reading and writing,
  and the terminal session that draws the browser's state.
- `tests/` — tests of the library on concrete images and inputs.
