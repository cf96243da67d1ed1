# maaweb-server

MaaWeb is a web UI controller for MaaAssistantArknights: the server loads the
MaaCore runtime, exposes an HTTP API and streams MaaCore events to the browser
over WebSocket.

- `src/` is the verified library (Verus): the cron format of schedules and
  when a schedule fires, the scheduled task list (add, update, remove, due
  tasks) with its laws, the updater's decisions (architecture, release asset,
  installed version, whether an update is due), MaaCore message names, the
  event stream's subscriber list (every live subscriber's sender is handed
  each event; a subscriber stays when its channel took it and is dropped
  when the channel refused it), the
  latest connection report, the WebSocket frames, the start-up order with its
  degraded mode, and the text and JSON handling these rest on. What a
  receiver then takes out of its channel is std's business.
- `app/` is the server around it: command line, HTTP routes (axum), the
  WebSocket loop, the MaaCore FFI (libloading), files, `curl` and `tar`.
- `tests/` exercises the library.
