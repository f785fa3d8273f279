//! The verified core of Scout, an LLM inference engine: the paged KV cache
//! allocator and its device memory, admission control for continuous batching,
//! and the organisation of checkpoint tensors into a model graph.

pub mod allocator_laws;
pub mod block_allocator;
pub mod device;
pub mod fragmentation;
pub mod gpu_block_allocator;
pub mod launch;
pub mod model;
pub mod model_laws;
pub mod safetensors_file;
pub mod scheduler;
pub mod scheduler_laws;
pub mod tensor;
pub mod tensor_names;
