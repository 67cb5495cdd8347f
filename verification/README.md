# zstats

System performance metrics: collecting them, judging them by alert rules,
keeping a history, and showing them as text.

`src/` is the library. It is written in Verus: its functions state what they
return, and the statements are proved, but for the few functions that call another
crate: what these state is believed, and the one that turns another crate's value
into one of the library's states nothing. The library reads no clock, no file and
no socket; the readings and the time come in as arguments.

- `snapshot`, `time`, `date`, `number`, `text`, `order`, `overrides`: the values
  everything else works on
- `collector`: raw readings become a snapshot (rates, rankings, process trees,
  deduplicated volumes), and what is due for a refresh
- `rolling`, `alerts`, `records`, `monitor`: averages, the rule engine, what is
  recorded and for how long
- `config`, `settings`, `cli`, `paths`: the settings file and the command line
- `daemon`, `client`, `scheduler`: the decisions of the background service
- `render`: tables, gauges and lines for a terminal

Percentages, cores, degrees, watts and loads are whole numbers of millionths;
durations and instants are whole nanoseconds.

What holds over several calls stands in the modules as public proof functions
whose names begin with `law_`.

The library calls `jiff` for calendar arithmetic, `unicode-width` for the width
of characters and `plist` for property lists, and two functions of the standard
library that Verus does not know. The functions that do so say in their contracts
what is taken from there.

`app/` is the program around the library: reading the machine, files, sockets,
the terminal and notifications. `tests/` holds the tests.
