//! Host-side logic of a GPU-accelerated JPEG XL lossy encoder.
//!
//! - [`float`]: single-precision arithmetic, bit by bit.
//! - [`quality`], [`mask`], [`median`], [`padding`]: settings, scales and
//!   planes.
//! - [`partition`], [`strategy`], [`assignment`]: choosing transforms by cost.
//! - [`device`], [`launch`], [`persistent`]: work for the device, recorded.
//! - [`cost_grid`]: trial encodings whose costs the choice is made by.
//! - [`lossy_encoder`], [`pipeline`], [`encode`]: encoding with DCT8.
//! - [`search`], [`search_costs`], [`search_flow`], [`plan`]: searching for transforms and
//!   encoding by what was found.
//! - [`execution`], [`dataflow`], [`functions`], [`operations`]: what carrying out
//!   recorded work comes to.
//!
//! The modules whose names end in `laws` state what holds across functions.

pub mod assignment;
pub mod assignment_laws;
pub mod batch_laws;
pub mod block_laws;
pub mod buffer_laws;
pub mod choice_laws;
pub mod cost_grid;
pub mod cost_grid_laws;
pub mod dataflow;
pub mod device;
pub mod encode;
pub mod encode_laws;
pub mod encoding_laws;
pub mod execution;
pub mod float;
pub mod flow_laws;
pub mod functions;
pub mod launch;
pub mod launch_laws;
pub mod lossy_encoder;
pub mod mask;
pub mod median;
pub mod number_laws;
pub mod operations;
pub mod padding;
pub mod partition;
pub mod partition_laws;
pub mod persistent;
pub mod pipeline;
pub mod pipeline_laws;
pub mod plan;
pub mod plan_laws;
pub mod quality;
pub mod quality_laws;
pub mod search;
pub mod search_costs;
pub mod search_flow;
pub mod search_laws;
pub mod strategy;
pub mod tie_laws;
pub mod transform_laws;
