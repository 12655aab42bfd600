pub mod camera;
pub mod canvas;
pub mod colour;
pub mod intersection;
pub mod light;
pub mod material;
pub mod matrix;
pub mod ray;
pub mod scalar;
pub mod sphere;
pub mod text;
pub mod tuple;
pub mod world;
