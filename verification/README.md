# logpushi

Replays historical log files into a SIEM, or rewrites their timestamps so that
they look recent, and delivers the events over OpenTelemetry (OTLP/HTTP), the
Splunk HTTP Event Collector, or standard output.

The library is written in Verus. Its functions state in their contracts what
they return and change, and the contracts are proved. The program around it
reads files, speaks HTTP and runs the tasks.

## Layout

`src/` is the library.

| Module | What it holds |
|---|---|
| `timestamp` | detection, parsing and format-preserving transformation of timestamps in lines and JSON fields |
| `detectors`, `classes`, `formats` | the grammar of each format, and the chain of detectors |
| `moments`, `clock` | from what a timestamp says to an instant: zones, years that are not given, the calendar |
| `render` | an instant in the format of the timestamp that it replaces |
| `roundtrip`, `redetection` | laws: what is rendered reads back, and a rewritten line is detected again |
| `event`, `sampling`, `lines`, `discovery`, `inventory` | events, the sampling of files and their lines, the walk over the corpus and its reports |
| `pipeline`, `stats` | event building, batches, retries, the recent window; counters and summaries |
| `accounting` | laws: what the counters of a run say of its batches and their events |
| `config`, `settings`, `cli` | configuration from the command line, the environment and a file |
| `transport` | HEC envelopes, OTLP requests, and the outcomes of responses |
| `json`, `text` | JSON objects as plain values; texts and numbers |

`tests/` holds the tests of the library, and `app/` the program.

What is believed without proof are the contracts of the functions marked
`external_body` or `assume_specification`. They are calls into `chrono`
(`clock`), `regex` (`classes`), `serde_json` (`json`) and the standard library
(`text`, `sampling`); each says above it what it claims.
