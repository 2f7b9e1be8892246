# denizo_init

A small init system for Linux. Boot scripts in `/etc/denizo-init/boot-scripts/`
are started in the order of their names; a name ending in `-oneshot` is run to
its end, one ending in `-auto-restart` is run again whenever it exits, one
ending in `-disabled` is not started. A control socket answers `start`,
`restart`, `stop`, `status` (with or without a service name), `refresh`,
`reboot` and `shutdown`.

Layout:

- `src/` — the verified library: file names of paths (`path`), the service
  model and its lifecycle (`service`), the table of services and its reload
  (`table`), the control protocol (`control`), loading a scripts directory
  (`scripts`), the power-down decisions (`power`), the command the client
  sends (`client`), a simpler table-less boot sequence (`simple_boot`), and
  text helpers (`text`).
- `app/` — the programs around it: process creation, signals, sockets, the
  file system and threads. `d-initctl` is the client; `denizo-init-simple`
  runs the table-less boot sequence; any other name runs the init.
- `tests/` — tests of the library on concrete values.
