# stwo_metal

The Metal GPU backend of a circle STARK prover, verified with Verus.

Columns hold their field elements as words in ordinary memory, in the layout that the kernels read;
whoever carries a submission out uploads them and reads results back. Large workloads (Merkle
layers, FRI folding, fixing a variable of a multilinear extension) go to the GPU, smaller ones to
the SIMD backend. For every operation the library decides which of the two it is, and then either

- hands out a request for the SIMD backend, or
- describes the GPU work completely as a `Submission`: buffers, copies, kernel dispatches with
  their arguments and thread grids, and what is read back,

and finally turns the answer into the operation's result. The contracts say exactly when each of
the two happens, what is handed over, and what is made of the answer.

Layout:

- `src/` the verified library
  - `fields`, `bits`, `circle`: arithmetic, bit reversal, domains and twiddles
  - `buffer`, `column`, `secure_column`, `backend`, `evaluation`: memory and the types on top of it
  - `gpu`, `device_model`, `validity`: submissions, what they do to memory, and their laws
  - `simd_model`, `agreement`: laws of whole operations, for any SIMD backend and any kernels
  - `hash`, `merkle`, `merkle_tree`, `poly`, `fri`, `gkr`, `quotients`, `accumulation`: operations
  - `init`, `context`: bringing a context up, its pipelines and its caches
- `tests/` tests against concrete values, with plain implementations in the place of the kernels
  and of the SIMD backend
- `app/` carries submissions out on a Metal device and connects the SIMD backend
