# CMD Runner

A tabbed launcher for Windows batch files. Each tab holds a `.bat` or `.cmd` file, runs it through
the command interpreter without a console window, and shows what it writes. The tabs are kept in
`cmdrunner.toml` beside the program.

## Layout

- `src/` is the logic, verified with Verus.
  - `model.rs`: the state as mathematics, and what each operation makes of it.
  - `app.rs`, `app/`: the state as a program. `run.rs` starts runs and notices their end,
    `reader.rs` takes what a command writes to its two streams as it comes, `frame.rs` is one
    frame of the window.
  - `laws.rs`: what holds of the program as a whole.
  - `config.rs`: what is kept between two starts.
  - `output.rs`: the console text. `cards.rs`, `theme.rs`: what the window shows.
  - `tray.rs`: the main window, the tray menu and the tray icon.
  - `text.rs`, `paths.rs`: letter case, numbers and path components. The calls into the standard
    library that are taken on trust stand here.
- `app/` is the window, the tray menu, the files and the processes around it. The tray menu is
  compiled on Windows only.
- `tests/` runs the library.

The library never kills or starts a process and never writes a file. Its functions return what is
to be done, and the program does it and reports back.
