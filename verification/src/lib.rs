pub mod fx;
pub mod math;
pub mod camera;
pub mod renderer;
pub mod scene;
pub mod physics;
