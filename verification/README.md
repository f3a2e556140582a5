# Queue Focus

A task queue for GNOME with four ordered buckets: Now, Side, Next and Later. The
first task of Now is the current one. It carries a timer, and completing it pulls
the head of Next where Now is left empty.

`src/` is the library, verified with Verus. It decides everything that does not
draw, read or write:

- `model`, `order`, `queue`, `laws`: tasks, the store and its changes
- `text`, `quick`: texts, and the line of text that adds a task
- `json`, `snapshot`, `store`, `disk`: the files and the snapshot
- `settings`, `settings_store`, `flash`: the settings and the reminder
- `state`, `change`, `bus`, `command`: the service, its bus and its command line
- `ui`, `keys`, `rows`: what the windows show and what keys mean
- `clock`: the system clock

`app/` is the program around it: the windows, the bus connection and the files.
`tests/` runs the library.
