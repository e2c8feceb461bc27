//! Scene flattening, batching and frame assembly for a retained-mode renderer.
pub mod backend;
pub mod backend_laws;
pub mod batch;
pub mod batch_laws;
pub mod border;
pub mod border_laws;
pub mod builder;
pub mod builder_laws;
pub mod compile;
pub mod context_laws;
pub mod display;
pub mod epoch_laws;
pub mod error_laws;
pub mod flatten;
pub mod flatten_laws;
pub mod frame;
pub mod frame_laws;
pub mod geometry;
pub mod ids;
pub mod images;
pub mod items;
pub mod length;
pub mod lists;
pub mod meaning;
pub mod nesting_laws;
pub mod node;
pub mod order_laws;
pub mod painting_laws;
pub mod phases;
pub mod phase_laws;
pub mod picture;
pub mod picture_laws;
pub mod plan;
pub mod readiness_laws;
pub mod resource_laws;
pub mod resources;
pub mod run;
pub mod scalar;
pub mod scalar_laws;
pub mod scene;
pub mod scene_laws;
pub mod shadow;
pub mod shadow_laws;
pub mod shape_laws;
pub mod shapes;
pub mod step_laws;
pub mod steps;
mod tables;
pub mod transform_laws;
pub mod tree;
pub mod upload_laws;
pub mod uploads;
pub mod visible;
