pub mod camera;
pub mod canvas;
pub mod error;
pub mod minifb_als;
pub mod ray;
pub mod tuple;
pub mod utils;
pub mod world;
