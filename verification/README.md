# ssht

Opens SSH local port forwards grouped into named namespaces, keeps each tunnel up
with a growing retry delay, and shows their state on a terminal screen.

- `src/` is the verified library:
  - `text`: decimal rendering of integers and joining of labels;
  - `config`: namespaces, forwards, and the configuration that names them;
  - `connection`: the ssh arguments of a namespace, status reports, and the
    supervisor that decides when to start ssh, when to retry and when to stop;
  - `tui`: the rows of the status screen, kept in name order, and its keys;
  - `shutdown`: the shared shutdown request.
- `app/` is the program: reading the configuration file, running ssh, the async
  driver of the supervisor, and drawing the screen.
- `tests/` runs the library on concrete values.
