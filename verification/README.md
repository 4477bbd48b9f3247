# chart_server

A terminal chart of ratios that arrive over TCP, one point per line:

    context series_key x_us num den [event_payload...]

Each context keeps its series (the newest 200 samples each), a log of the
newest 100 lines, the colors of the JSON fields its events carried and the
latest values of the watched fields. A command palette sends predefined or
raw commands to another TCP socket. `point-sender` is an interactive client
that checks and sends points; `test-listener` logs the commands it gets.

## Layout

- `src/` is the library, verified with Verus:
  - `text.rs`: whitespace, splitting, trimming, decimal numbers, joining;
  - `model.rs`: samples, series, bounded buffers, contexts, display modes;
  - `protocol.rs`: the line protocol and its configuration;
  - `json.rs`: JSON payloads and the colors of their fields;
  - `command.rs`: command specifications and the command palette;
  - `app.rs`: the chart's state and what every key, mouse event, record
    and sent command does to it, with the laws that tie them together;
  - `plot.rs`: which samples are plotted, and the shortening of time labels;
  - `ui.rs`: what the screen shows, computed apart from drawing it;
  - `sender.rs`: the point sender's checks and rewriting of typed lines.
- `app/` is the program around it: the terminal, the sockets, the
  environment, the floating-point plot window and the drawing.
- `tests/` runs the library on concrete values.

## Configuration

`CHART_LISTEN_TCP` (default `127.0.0.1:9101`), `CHART_STATE_FIELDS`
(`;`-separated), `CHART_CMD_TCP`, `CHART_CMD_LIST` (`;`-separated names) and
`CHART_CMD_<name>` (`name:type[:transform][=default];...`, types `int`,
`float`, `string`, transform `mul_1e9_u64`).
