# wrap

`wrap` wraps text in a Markdown fence or in `<paste>` tags, recognises such
wrappers, and takes them off again. `wrapctl` asks the `wrapd` daemon to
rewrap the clipboard and paste it; `wrapd` keeps a Wayland connection, takes
requests on a Unix socket, and answers with `OK` or `ERR` lines.

The library under `src/` is verified with Verus:

- `text`: whitespace, trimming, `str::lines` and `str::split_whitespace`
  over sequences of characters.
- `decimal`: numbers written in decimal and read back as `str::parse` does.
- `wrapping`: wrapping, detection, unwrapping and the paste transform.
- `laws`: what holds of them across calls (a wrapped text is detected in its
  format, unwrapping gives the content back, pasting again only trims).
- `protocol`, `client`: the request and reply lines of daemon and client.
- `protocol_laws`: what the daemon makes of the client's requests, and the
  client of the daemon's replies.
- `wire`: the Wayland wire format (words, strings, messages).
- `registry`: the compositor's globals and the paste keystroke.
- `clipboard`: the daemon's clipboard state and how events change it.

`app/` holds the programs themselves: argument handling, standard input and
output, the Unix socket, the Wayland socket with its file descriptors, and
the macOS pasteboard. The program runs as `wrap`, `wrapctl` or `wrapd`
according to the name it is started under.
