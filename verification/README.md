# pixpull

A robust HTTP/HTTPS picture downloader whose decisions are verified with
[Verus](https://github.com/verus-lang/verus).

The library under `src/` performs no I/O. It holds what a bulk image download has to
decide, each function with a contract that Verus proves:

| module | what it decides |
|---|---|
| `args`, `config` | the settings of a run, input files, how config values fill in |
| `client`, `headers`, `cookies` | what a request is made with, what a response says |
| `address`, `names` | where a URL points to, where its file goes |
| `validate` | which image format a file has |
| `download` | one URL, from the plan of its name to the final file |
| `fetch`, `segments` | one attempt at a file, one byte range of it |
| `retry`, `throttle` | how long to wait |
| `run`, `clock` | what is counted and logged of a run, and when it stops |
| `failure` | what the user reads when something goes wrong |
| `text`, `numbers` | text and number primitives |

`download::Job`, `fetch::Fetch` and `segments::Segment` are state machines: a driver
performs the action that they ask for, reports what happened, and is told what to do
next. What holds of whole runs is stated in the proof functions whose names begin with
`law_`.

`app/` is the driver: command line, config file, files, sockets and sleeps.

Functions marked `external_body`, and the `assume_specification` items, are trusted:
each names the function of the outside crate that it calls, and says what is claimed
of it.
