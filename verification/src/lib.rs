pub mod camera;
pub mod fixed;
pub mod hittable;
pub mod hittable_list;
pub mod materials;
pub mod ray;
pub mod render;
pub mod sphere;
pub mod utils;
pub mod vec3;
