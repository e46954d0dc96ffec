# power_rename_gui

The logic of a batch renaming window, written in Verus: every function of the library carries a
contract, and Verus proves each of them but for the four wrappers named below.

## Layout

- `src/` is the library.
  - `form`, `rule`, `mapping`, `rule_list`: the editable rule forms, the rules they stand for, the
    ordered rename list, and the list of rules with its choice.
  - `panel`: the state of the window and its commands.
  - `tree`, `paths`, `preview`, `filter`, `rows`: the directory tree, the preview of a renaming, the
    status filter, and the rows of the preview table.
  - `codec`, `bitmap`, `fonts`, `text`: rename list files, screenshots, font order, and text.
- `tests/` runs the library on concrete values.
- `app/` is the program: the window drawn with egui, file dialogs, and the renaming engine
  `power_rename`, which reads directories, computes previews and renames.

Paths are numbers in the library. The program hands out the numbers, parents before children, and
keeps the path behind each.

The program looks for its packed font under `assets/fonts/` beside the executable.

## What is trusted

Four wrappers call code that is not verified here: `std::str::from_utf8` and
`String::from_utf8_lossy`, the GBK decoder of `encoding_rs`, and the gzip reader of `flate2`. Their
contracts stand above them in `codec` and `fonts`.
