# FastUp

FastUp is a command-line tool for Linux that starts, stops and watches the
local processes and system services of a development environment, as a YAML
file describes them (`~/.config/fastup/fastup.yaml`).

## Layout

- `src/` is the verified library (Verus):
  - `config.rs`: the configuration, lookup of elements and groups, and the
    decisions taken when the status is refreshed or an element is started;
  - `elements.rs`: element types, what starting one runs, and how stopping one
    is decided;
  - `state.rs`: the record of running elements (a map by name), with
    registration, removal, clean-up against the running processes and
    validation of a recorded process;
  - `process.rs`: a snapshot of the running processes;
  - `ports.rs`: reading the process that listens on a port from `ss -tlnp`;
  - `utils.rs`: removal of ANSI escape sequences, the status line of an
    element and the file locations;
  - `logger.rs`: log levels and the terminal and log-file lines of a
    message;
  - `paint.rs`: terminal colours from colored;
  - `text.rs`: searching, joining and decimal rendering of characters.
- `app/` is the program around it: command line (clap), YAML and JSON files
  (serde), processes and sockets (sysinfo, `ss`, `systemctl`), the clock
  (chrono), printing and the log file.
- `tests/` runs the library on concrete cases.
