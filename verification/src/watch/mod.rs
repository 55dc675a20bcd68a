//! Reading what a serving engine and the GPUs report while a workload runs:
//! the Prometheus exposition format, `nvidia-smi` CSV, `nsys` summaries.
pub mod prometheus;
pub mod nvidia_smi;
pub mod nsys;
pub mod session;
