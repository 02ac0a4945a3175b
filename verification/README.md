# slurm_docker

A Docker-style front end for Slurm clusters, with its parsing and planning logic
proved in Verus.

Library (`src/`, verified):

- `dockerfile` — Dockerfile parsing: physical lines joined into logical lines,
  one instruction per line, and grouping of multi-stage builds into stages.
- `slurm` and `slurm::parser` — the `scontrol show ...` record format, the typed
  readers for nodes, partitions and jobs, the cluster inventory, the commands that
  containers run for instructions, and the Slurm scheduler, hosts and containers.
- `runtime`, `runtime::engine`, `runtime::host` — layers and their content hashes,
  resources, commands, processes, and the scheduler/host/container/engine traits.
- `apptainer` — a stand-in container engine.
- `state` — the tool's remembered hosts and schedulers.
- `cli` — the tool's requests, the launch behind `run`, and the lines it prints.
- `text`, `strmap`, `clock` — text handling, a text-keyed map, clock readings.

Calls into `shell-words`, `serde_json`, `sha2`, `hex` and `object_store` sit behind
small trusted wrappers whose contracts name or state their results.

Program (`app/`, not verified): argument parsing with `clap`, the JSON state file,
running `scontrol`, and printing.
