# binkflix

A self-hosted media server: it indexes libraries of films and shows, streams them as they
are, repackaged or encoded, and lets people watch together.

`src/` is the library, verified with Verus: what a file name says, what a scan has to do, how
a video is cut into segments and who produces them, what browsers can play, how rooms keep in
step, who may see what, and what the pages show. Public functions state what they return or
change. Where a value comes from chance, or from a counter that others raise at any time, they
state what holds whatever it is: `CancelToken::is_cancelled` only reads such a counter and
states nothing. Laws that span functions stand beside them as public proof functions.

`app/` is the program around it: routes, sockets, the database, ffmpeg and ffprobe.

`tests/` runs the library on concrete values.

Times are whole microseconds, milliseconds or ticks in the library, ratings are millionths;
`app/` turns them into seconds and fractions where clients and the database want those.

| module | what it holds |
| --- | --- |
| `text`, `paths`, `numbers`, `decimal`, `clock`, `ids` | strings, paths, rounding, printed numbers, timestamps, ids |
| `filename`, `nfo` | what names and metadata files say |
| `scanner` | what a scan finds, what is stale, what is stored |
| `media_info`, `subtitles`, `trickplay`, `markers`, `fingerprint` | what is taken out of a file |
| `remux`, `mp4`, `hls` | how a file is delivered |
| `syncplay`, `room_client` | watching together, on the server and in the browser |
| `auth`, `registration`, `users`, `watch`, `analytics` | users and what they do |
| `library`, `search`, `views`, `pages`, `client` | what is shown and asked for |
| `tools` | the command line tools |
