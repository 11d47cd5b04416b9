# rdpcore

The protocol side of a remote desktop server, verified with Verus: what goes over
the wire, and what every message does to the state of a connection. The library
takes bytes and gives bytes; sockets, threads, screens and sound cards are left to
whoever uses it.

## What is in it

| Modules | What they are for |
| --- | --- |
| `cursor`, `bytes`, `utf16`, `text`, `render`, `model`, `trace` | reading, writing, and the words that contracts are written in |
| `ber`, `per` | the two encodings of connect data |
| `tpkt`, `tpdu`, `x224` | the outermost frames, and the first request |
| `mcs`, `gcc` | domains, channels and connect data |
| `headers`, `client_info`, `licensing`, `capability_sets`, `finalization` | logging on and activation |
| `connector` | the whole connection sequence as one state machine |
| `fastpath`, `pointer`, `surface_commands`, `rdp6`, `nscodec` | input, output, and two bitmap codecs |
| `svc`, `dvc` | static channels, and dynamic channels over one of them |
| `cliprdr`, `rdpsnd`, `rdpeai`, `rdpdr` | clipboard, audio both ways, devices |
| `rdpegfx` | the graphics pipeline, and the encoders that it uses |

## How contracts are written

Every type that holds more than numbers has a view. A decoder's contract equates
its result with a `parse_..` function on the sequence of bytes that it was given:
which value, and which error, for every input. An encoder's contract equates its
result with a `..wire` function of the view. State machines have a `.._step`
function from state and input to state and output, and the method does what the
step says. Theorems that relate these, such as that decoding gives back what was
encoded, are the public `law_..` functions.

Handlers, backends, consumers and encoders are traits for users to implement.
Nothing is assumed of what they do. What they are called with, in which order, and
that they are called for nothing else, is stated of the methods themselves, by
`call_ensures`: the value as a call leaves it is the value as the next one finds
it, from the one that stood at the start to the one that stands at the end. What
they answer is an input of the step that follows.

## What is taken on trust

`text` and `render` say what a few functions of the standard library return.
`rdpegfx::openh264_enc` calls OpenH264. What OpenH264 is handed is stated; of what it
gives back hardly anything is said, and its pictures are checked like anything else
that comes from outside.

## Layout

- `src/` is the library.
- `tests/` runs it, with OpenH264 among the rest.
- `app/` is plain Rust around it: factories, encoders in graphics cards, a graphics
  session that threads share, and the library's errors as errors of `std`. The
  encoder that goes through VA-API needs the headers of `libva`, and is built only
  with the feature `vaapi`.
