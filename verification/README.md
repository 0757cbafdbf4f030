# pipecap

Screen capture for Electron on Linux: the desktop portal's picker, video frames
in shared memory, and audio of the whole desktop or of one application, through
PipeWire.

The library under `src/` holds what the capture decides and computes, and is
verified with Verus. `app/` connects it to PipeWire, the portal and Node.js.

| Module | What it holds |
|---|---|
| `session` | what was picked, which captures run, and which audio is captured |
| `portal` | the conversation with the desktop portal, as a state machine |
| `shm` | the shared memory region: a header and two frame slots |
| `capture` | what video is asked for, and the frame in a delivered chunk |
| `audio` | samples and their bytes, targets, formats |
| `audio::mix` | the mixer of several sources |
| `audio::app` | the capture of one application |
| `audio::system_exclude` | the capture of all but excluded processes |
| `audio::sink_monitor` | the capture of the sink monitor into one buffer |
| `audio::resolve` | which application a window or a stream belongs to |
| `registry` | what the PipeWire registry announces |
| `release` | values that must be gone before something else is done |
| `pw_util` | waiting for the server |
| `text` | operations on text |

## Shared memory

The region at `/dev/shm/pipecap-frames` holds a header of 32 bytes and two frame
slots. The header is `seq` (64 bits, at byte 0), `width`, `height`, `stride`,
`data_offset` and `data_size` (32 bits each, at bytes 8, 12, 16, 20 and 24),
little-endian, and starts as all zeros. A frame is written into the slot
that the header does not point at; `seq` is stored last.

## Samples

Samples are single precision numbers, which the library holds as their bit
patterns. The one operation on them, the addition in the mixer, is an argument
of `MixBuffer::drain`.

## What is taken on trust

`text::to_lowercase` calls the standard library's `str::to_lowercase`. The
library relies on its result depending on the text alone, and on nothing else
about it.
