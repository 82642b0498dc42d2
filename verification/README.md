# zenllm

The decision logic of a hardware-aware LLM runtime, verified with Verus, and a small
command-line program around it.

## Layout

- `src/` — the verified library:
  - `planner` — the load planner: which execution mode a model runs in on a machine, and
    how many layers go to the GPU; its laws (what a plan records, when a request is
    refused, that placements fit the machine) are proof functions beside it.
  - `hardware` — what the machine has, parsed from what the system and the vendor tools
    (`nvidia-smi`, `rocm-smi`, `sycl-ls`, `system_profiler`) print.
  - `model_meta` — size estimates from a model's name and data type.
  - `registry` — the model registry (add, get, remove, sorted listing) and what a model
    file's name and GGUF header tell about it.
  - `gguf_layout` — a walk of a GGUF header's metadata entries that finds the data
    alignment the header declares, so that files the reader would divide by 0 on are not
    handed to it.
  - `flexload` — layer streaming: the two-tier layer cache, the streamer's decisions
    (requests, loads, staging within RAM and VRAM budgets, prefetch), and which layers
    and tensor bytes a set of safetensors files holds.
  - `routing`, `launch`, `pull`, `queue`, `env` — query routing, turning a plan into launch
    settings, the choices made while pulling a model, the request queue and the
    scheduler's step, and environment switches.
  - `vector_slots` — the id bookkeeping of the in-memory vector store (which slot of the
    index holds which record).
  - `text` — the character-level helpers the rest is built on.
- `tests/` — tests of the library on concrete values.
- `app/` — the `zenllm` program: argument parsing, files, processes, network and
  threads, calling the library for every decision.

Calls into `safetensors`, candle's GGUF reader and `str::to_lowercase` go through small
trusted wrappers whose contracts name their results; everything else in `src/` is proved.
The layer store and the device stager of the streamer are traits that the user implements;
the streamer's contracts say what it hands them and what it does with each answer, through
the stager's `moved_to` and `released` and the store's `sized`, and rely on nothing more.
