# zeptoclaw

The verified core of three edges of the ZeptoClaw agent:

- `tunnel`, `url`: the Cloudflare tunnel. What `cloudflared` is started with, which of its
  lines announces the public URL, and when a start is over.
- `native`, `launch`: the native command runtime. What a command is started with, which host
  variables reach it, and what is reported of its end.
- `ws`, `header`, `slots`: the WebSocket event stream of the panel. Which offered protocol
  authenticates a client, how an upgrade request is answered under the cap on connections, and
  what a connection sends.

`text` holds the character scanning that `url` rests on, `perms` the mode of secret files.

`app/` does the I/O around it: processes, sockets, files and logging.
