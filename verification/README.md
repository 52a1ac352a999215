# catprinterd

An IPP Everywhere printer for Bluetooth "cat" thermal printers: the MXW01 (1 bit and 16 levels of gray)
and the classic family (GB0x, GT01, MX0x, YT01, X5, X6). CUPS sends PWG raster over loopback IPP; the
daemon decodes, trims, fits, dithers and packs it, and drives the printer over BlueZ.

The library under `src/` is verified with Verus: every function states what it returns, and the proofs are
part of the source.

| Module | What it holds |
|---|---|
| `protocol`, `models` | the frames of both families, and the course of a print as a state machine |
| `raster`, `render` | the raster reader; trimming, fitting, dithering, packing; pictures |
| `printer` | errors and what is said of them; the scripted printer for end-to-end runs |
| `engine` | jobs, their store, the run of a job through its attempts |
| `ipp` | attributes, requests and answers, and the service that handles them |
| `http` | routes, request bodies while they come in, the status page |
| `ble` | the object tree, discovery, connecting, the host's Bluetooth hardware |
| `commands`, `config`, `adopt`, `doctor` | the rules behind the subcommands |
| `text` | strings as sequences of characters |

What the library cannot compute it takes from other crates, each behind a small function whose contract
says what is relied on: `ipp` (encoding), `image` (pictures, scaling), `flate2` (compressed documents),
`uuid`, `http` (URIs) and `serde_json`.

`app/` is the program around it: the command line, HTTP, D-Bus, sockets and files, and the image kernels
that compute in floating point. It asks the library what to do and does it.

Laws that relate several functions stand beside them, or in `ipp/laws.rs`, `ipp/readback.rs`,
`engine/laws.rs`, `render/laws.rs`, `raster/laws.rs` and `commands/ppd_laws.rs`: that what is answered can
be read back as it was meant, that a request that is refused changes nothing, that a job that is over stays
so, that a job waits for its printer, that blank pages carry nothing, that labels are put in once.
