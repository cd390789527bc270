# arcade

Cloud arcade: a signaling server that pairs browsers with emulator workers, and the
workers that run a libretro core and stream it over WebRTC.

- `src/` is the library, verified with Verus: the signaling protocol and its rules
  (registry, controller join codes, routing and access checks), the worker's room
  (player slots, held-back input), its signaling decisions, the video pipeline
  (pixel conversion, scaling, H.264 keyframe detection, pacing and quality profile,
  encoder retries around OpenH264), audio chunking, and configuration parsing.
- `app/` holds the programs around it: `arcade` runs the signal server, and
  `arcade worker` runs an emulator worker (sockets, threads, the libretro FFI and WebRTC).
- `tests/` exercises the library.

Settings are read from the environment: `SIGNAL_ADDR`, `SIGNAL_AUTH_TOKEN`,
`SIGNAL_ALLOWED_ORIGINS`, `SIGNAL_DEDUP_ROOMS_BY_GAME`, `SIGNAL_STATIC_DIR` for the
server; `WORKER_SIGNAL_URL`, `WORKER_SIGNAL_TOKEN`, `WORKER_DEFAULT_GAME`,
`WORKER_ASSETS_ROOT`, `WORKER_HEALTH_ADDR` for a worker.
