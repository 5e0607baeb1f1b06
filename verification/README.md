# lxst

Telephony over Reticulum: the LXST packet format, audio frames and codecs, the mixing and
queueing of audio, the call state machine, and the rules of a terminal or hardware telephone.

`src/` is the library. It is written in Verus: every public function states its behaviour
in `requires` and `ensures` clauses, and Verus proves them. Samples are held as the bits of
single precision numbers, so the library moves, limits, converts and orders them exactly
without doing floating point arithmetic; lengths and places that are counted in single or
double precision are rounded on integers. Times are nanoseconds that the caller reads from a
clock. What waits for a device, a thread or the network is a step function: it takes what
happened and says what to do next.

| modules | what they hold |
| --- | --- |
| `packet`, `codec`, `signalling`, `packed` | packets, their frames and signals, and their bytes |
| `audio`, `float_bits`, `rounding`, `gain` | audio frames, number formats and their rounding, gains |
| `raw_codec`, `codec2_codec`, `opus_codec`, `audio_codec` | codecs and how they are chosen |
| `frame_plan`, `device`, `stream` | frame lengths, devices, recording and playing |
| `pipeline`, `mixer`, `line_sink`, `media` | sources, sinks, queues and sound files |
| `telephony`, `session`, `profile`, `time` | calls, links and call profiles |
| `network`, `identity`, `hash_text` | destinations, path searches, identities |
| `config`, `args`, `scan`, `commands`, `ui` | configuration, command line and the user's side |
| `keypad`, `lcd` | the hardware telephone |
| `error`, `text`, `std_text` | errors and text |

Proof functions whose names begin with `law_` state what holds across functions, such as that
a packet is read as it was written. The functions marked `external_body` call other crates or
the standard library; what is claimed of each stands in its contract and doc comment, and is
not proved.

`app/` is the telephone itself: threads, sound devices, files, the network, and the floating
point signal processing. `tests/` runs the library.
