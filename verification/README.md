# iperf

A benchmarking and monitoring tool for LLM inference servers (vLLM, SGLang
and other OpenAI-compatible backends), with a model downloader and a small
model file server.

- `src/` is the library, written in Verus: every function there carries a
  contract and is verified. It holds the decisions and the parsers: prompt
  pools and cache breakers, request composition, server-sent-event framing
  and streamed-token accounting, latency statistics and percentiles,
  configuration merging, duration and role parsing, the Prometheus,
  `nvidia-smi` and `nsys` text formats, the hub's routes and byte ranges,
  the file-selection rules of distributed downloads and their retry
  schedule. Proof functions named `law_*` state properties that hold
  across calls.
- `app/` is the executable around it: command-line parsing, HTTP clients
  and server, processes, files, progress bars, and the floating-point rates
  shown in reports.
- `tests/` exercises the library on concrete inputs.
