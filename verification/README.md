# lalah

A bridge for audio, and experimentally video, from a Windows guest to its Linux host
over an IVSHMEM shared-memory region.

- The guest captures audio, from an endpoint or through a filter graph, and writes raw
  PCM frames into a ring in the region. It may also write raw video frames into a
  second ring behind the first 16 MiB.
- The host maps the same memory, plays the audio with bounded latency, and forwards
  video frames into a named pipe for a player.

`src/` is the library: the layout of the region, the two rings, the formats, and the
decisions of both programs, each function with a contract that Verus proves. `app/`
is ordinary Rust around it: the system calls.

## What is proved

Both processes reach the region through atomic cells. A handle keeps one ghost record,
and every access that it makes to the region's cells is entered there: neither cells nor
records can be copied. The contract of every ring operation says which accesses it makes
and what it returns for whatever its loads gave. That an accessor of `memory.rs` makes
the access that it enters is read off its body; Verus has no statement of what an atomic
holds.

The laws in `audio_laws.rs` and `video_laws.rs` are about these records, run against any
sequentially consistent interleaving with the other side: what is pushed is read back, a
read that is accepted is never torn, a format or a geometry is seen whole or not at all,
reads take whole frames, keep to the latency budget, and skip nothing that lies within it
and that the ring still holds.

The sequences of system calls (`capture.rs`, `dshow.rs`, `keepalive.rs`, `ivshmem.rs`,
`forward.rs`, `guest.rs`) are state machines: the library says which call comes next
and takes its result, the application makes the call. Their laws say that a setup ends,
that formats are published before anything runs, that a client which was started is
stopped and its event closed, that the device list is closed whatever happens, and that
the pipe carries whole frames.

| module | contents |
| --- | --- |
| `layout`, `format` | the headers and what they carry |
| `trace`, `memory`, `memory::mapping`, `interleave` | accesses, cells, mappings, interleavings |
| `audio`, `audio_laws` | the audio ring |
| `video`, `video_laws` | the video ring |
| `wave`, `videoinfo`, `fourcc` | formats as the capture side and the player name them |
| `capture`, `dshow`, `keepalive`, `devices`, `ivshmem`, `guest`, `vm_args` | the guest |
| `host`, `forward`, `host_args` | the host |
| `bits`, `bytes`, `text`, `cli` | helpers |
