# fnk0085_smart_car_backend

Backend of the Fnk0085 smart car: devices register, long-poll for driving,
photo and PWM-cache commands, report events and upload JPEG frames; the web
front end lists devices, drives them, takes photos and watches the video
stream.

Layout:

- `src/` — the library, verified with Verus: configuration model and JSONC
  comment stripping (`config`), the datagram wire format and frame
  reassembly (`protocol`), AES-128-GCM sealing (`crypto`), the per-device
  video cache (`video_cache`), the device registry with its command queues
  (`device`), request routing and every endpoint's decisions (`handlers`),
  the datagram channel's decisions (`udp_listener`) and the rules for
  serving the embedded front end (`static_files`).
- `tests/` — tests of the library.
- `app/` — the executable around it: configuration file I/O, logging, the
  actix-http server (HTTP/1.1 and h2c), JSON encoding, the embedded front
  end, long-poll and photo waits, video streaming and the optional UDP
  socket.
