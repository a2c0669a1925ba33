# perch

Twitch in one native window: browse what you follow, and watch up to four
streams or recordings at once, each with its chat.

- `src/` is the library: everything the window decides and computes. Which
  quality a pane gets, how a playlist is read, grown and written, what a worker
  does next, what the browse page, the palette and the panes show, how the grid
  is laid out, what is remembered of a channel. Each function states what it
  returns or changes, and Verus proves it, but for the few below. The `law_`
  functions state what holds across several of them.
- `tests/` runs the library on concrete values.
- `app/` is the program around it: the window, streamlink, mpv, the requests to
  Twitch, the settings file, the logs. It asks the library what to do, does it,
  and tells the library what came of it.

Times are counted in milliseconds, lengths on screen in 64ths of a pixel, and
shares of a whole in millionths.

Some functions only hand a call on, and what they state is believed rather than
proved. Each stands in `src/` with `external_body` or `assume_specification`
above it, and its comment says what it claims:

- chrono: reading an RFC 3339 time, the clock, the day and the time of day where
  the machine is, and the date of a day (`moment`).
- serde_json: reading what streamlink answers (`streamlink`).
- std: pushing a character (`text`), the debug form of a text (`text`), and the
  lower case of a character (`palette`).
