# Scout

The core of an LLM inference engine, verified with Verus.

- `src/block_allocator.rs`: the paged KV cache block allocator. Free list, one
  block table per sequence, eviction of sequences that were marked for it.
  `src/allocator_laws.rs` states what its operations guarantee together.
- `src/scheduler.rs`: admission control and first-come, first-served dispatch of
  continuous batching. `src/scheduler_laws.rs` states its guarantees.
- `src/device.rs`, `src/gpu_block_allocator.rs`, `src/launch.rs`: addresses of
  blocks in device memory, and the dimensions that kernels take.
- `src/tensor.rs`, `src/safetensors_file.rs`: tensors by name, read out of the
  bytes of a safetensors file.
- `src/tensor_names.rs`, `src/model.rs`: the names of a Qwen2 checkpoint and the
  model graph that is built from them.
- `src/fragmentation.rs`: blocks that a workload takes when it reserves the worst
  case, and when it grows on demand.

`app/` holds what talks to the device, the disk and the terminal. It needs the
CUDA objects of the kernels at link time.
