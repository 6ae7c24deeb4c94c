# num_threads

Number of threads of the running process, read from what the operating system
reports of it.

- `src/` is the verified library. `ProcessInfo` holds one system's report;
  `num_threads` and `is_single_threaded` read the count from it. One module per
  system states, as spec functions, how its report is read: `proc_stat`
  (Linux, Android: the `/proc/self/stat` record, parsed character by
  character), `freebsd`, `dragonfly`, `macos`, `netbsd`, `openbsd`, `windows`.
- `app/` makes the system calls and file reads for the host system and hands
  the reply to the library.
- `tests/` runs the library on concrete reports.
