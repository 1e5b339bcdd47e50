# maeve

A music bot for TeamSpeak: it reads chat commands, keeps a playlist and a queue of files to
render, renders files into Opus voice packets and streams them to the server.

The library under `src/` is verified with Verus:

- `command`: chat messages to commands (`!add`, `!jump`, `!remove a..b`, ...), and the help text.
- `state`: the player's state (playlist, queue, current song, playback and loop modes) and every
  change a command makes to it, including the stable sort by name and the `!list` text.
- `dispatch`: what each command does to the state and answers, queuing the files an `!add`
  found, and the player's step before each packet.
- `audio`: raw big-endian samples to encoder frames, and encoded frames to voice packets.
- `utils`: cutting long texts into pieces at line breaks, and reading a program's output as
  lines.
- `number`, `order`: decimal numbers and byte-string order, which the modules above share.

`app/` is the program around it: the TeamSpeak connection, ffmpeg and the Opus encoder, the
`find` lookup of files, and the tasks that share the state.
