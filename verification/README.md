# inference-router

An OpenAI-compatible HTTP proxy in front of local inference servers. It keeps
one pool of server processes per model, sends each `/v1/*` request to an
instance of the model that its body names, starts instances where there are
none, and stops idle models where GPU memory runs short.

## Layout

- `src/` is the library: every decision that the router takes, verified with
  Verus. It does no input or output. Where a decision needs the outside world
  in between, such as the start of a process, it is cut into steps: a step says
  what is to be done, and what came of it begins the next one.
  - `config/`: models, presets, aliases, settings, throughput
  - `orchestrator/`: the controller; placing, starting and serving models
  - `process/`: command lines, ports, the table of instances
  - `api/`: what is answered to clients, and the guards against loops
  - `system/`, `vram/`, `ui/`: readings of the machine, and how they are shown
  - `adapter.rs`: a chat front for a terminal program that denoises text
- `tests/` runs the library on concrete values.
- `app/` is the program around the library: HTTP, files, processes, and the
  few computations on fractions.

## Properties

Laws that relate several functions stand beside them as public proof functions
whose names begin with `law_`. Some examples: every request that no guard
touches goes on byte for byte; only idle models are stopped to make room, and no
more of them than needed; chains of aliases never run in a circle; memory that
was set aside for a process is given back; what is heard of a stream does not
depend on how it was cut into pieces.

## Running

Started as `inference-router`, the program listens on port 8080 and keeps its
files in `~/.config/inference-router`; `INFERENCE_ROUTER_PORT` and
`INFERENCE_ROUTER_CONFIG_DIR` change that. Started as `diffusion-adapter`, it is
the chat front.

What only the machine knows comes from a helper program,
`inference-router-hardware` or the one that `INFERENCE_ROUTER_HARDWARE` names.
It is called as `gpus`, `gguf-info PATH`, `facts` or `fit`, the last two with a
JSON request on its standard input, and answers in JSON.
