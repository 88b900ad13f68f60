# thermal_camera

Host side of the vendor protocol of the TB-4117-3/S thermal camera module (USB
2bdf:0101), written in Rust and verified with Verus.

The camera streams 240x320 MJPEG over a bulk endpoint and answers thermometry
commands through a vendor extension unit while it streams. The library in `src/`
does no input or output. Every exchange is a value that says which control
transfer comes next (`pending`), takes the reply (`reply`), and has an `outcome`
once nothing is pending. Its contracts say exactly which transfers are asked for
and what each reply leads to.

| Module | What it holds |
|---|---|
| `wire` | little-endian integers and byte buffers |
| `transfer` | control transfers, replies, errors, extension unit addressing |
| `transaction` | plain reads and two-phase, chunked reads |
| `stream` | claiming interfaces, stream negotiation, JPEG frames from payloads |
| `roi` | region search: requests, results, single pixels |
| `radiometric` | captures: picture and temperature matrix |
| `query` | answers about points and rectangles of a capture |
| `compensation` | body-temperature compensation settings |
| `text`, `args` | hex dumps, numbers, tables, program arguments |
| `session` | what the programs decide while the stream runs |
| `survey` | several queries in a row, with the error code of each that fails |
| `trial` | captures with and without compensation |
| `inspect`, `probe`, `readout` | readings and exchanges of the diagnostic tools |

Temperatures of a capture are kept as the bit patterns of their 32-bit IEEE 754
numbers. Functions named `law_...` are proofs of what holds across calls, such as
that chunks are put together as they were sent, or that switching compensation
leaves the other settings as they were.

`app/` is ordinary Rust: it owns the USB handle, carries out the transfers, and
prints. `thermal-camera` saves frames and answers temperature queries; with the
name of a diagnostic tool as first argument it runs that tool.
