# gguf-analyzer

A command-line tool to explore and edit the metadata of GGUF model files, and
to fetch GGUF files and model cards from the HuggingFace Hub.

The crate is written in Verus.

- `src/` is the verified library: the GGUF byte format (reading and writing
  the header, metadata and tensor-info sections, with alignment padding), the
  metadata collection, the rendering of values, shapes and sizes, model-card
  parsing, repository identifiers and output paths, glob filtering, and the
  decisions of every subcommand, including the steps of entering sampling
  parameters by hand.  Each public function states its result in its
  contract, except where the result comes from the environment (the terminal
  width) or from glob patterns with `**` or a path separator, whose meaning
  depends on the platform; every other glob pattern is matched as stated.  The laws of the format,
  the metadata collection and value rendering are proof functions named
  `law_*`.
- `app/` is the binary: argument parsing, memory-mapping and writing files,
  terminal tables, HTTP requests, interactive prompts, JSON output and the
  rendering of floating-point values.
- `tests/` runs the library on concrete values.
