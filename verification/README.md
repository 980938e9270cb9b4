# wifi_display_server

Streams a monitor (preferably a virtual display) over WiFi to an Android
tablet and injects the tablet's touches back as mouse events.

`src/` is the verified library:

- `transport` — fragmentation of encoded NAL units into UDP datagrams with an
  8-byte header; proved to reassemble to the NAL.
- `annexb` — splitting an HEVC Annex-B stream into NAL units at start codes.
- `yuv` — fixed-point BGRA to YUV 4:2:0 conversion.
- `encoder` — encoder selection and the OpenH264 software encoder.
- `input` — touch packet decoding, virtual-display detection, adapter lookup
  and target-monitor selection.
- `capture` — choosing the display to capture, frame pacing.
- `config` — server settings.
- `text` — the standard library's string operations used above.

`app/` is the program around it: command line, screen capture, the ffmpeg
child process, sockets and Windows input injection.
