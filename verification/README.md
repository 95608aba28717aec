# rust-minios

A small operating-system simulator with a terminal user interface: paged memory with
first-fit allocation, a process table and a round-robin scheduler, an in-memory inode file
system, an I/O event queue, system calls, a line editor and a shell with a little script
language (variables, `if`/`else`/`end`, `for`/`end`, `run`).

## Layout

- `src/` is the library, verified with Verus. Every function has a contract stated over
  abstract views (`Seq`, `Map`, spec functions), and the laws of the system are public proof
  functions next to the code they speak of (`law_*`).
  - `kernel/`: memory, processes, scheduler, file system (with the line-by-line layout of
    its tree drawing in `tree.rs`), I/O, system calls, and the kernel that dispatches them.
  - `ui/`: the shell and its script interpreter (with the laws of `if`/`else` blocks in
    `script.rs`), the editor, the application's key handling, and what the views compute
    before they are drawn.
  - `text.rs`: character-level helpers (lines, words, trimming, numbers) shared by the rest.
- Commands and scripts that would push the next pid or inode number past its largest value
  stop with `Overflow` (`Shell::try_execute_command`, `try_run_script`, `try_handle_enter`,
  `App::try_handle_key`); the other entry points ask their callers to rule that out.
- `app/` is the terminal program: it sets the terminal up, converts key events, calls the
  library, and draws the views with ratatui.
- `tests/` exercise the library on concrete values.
