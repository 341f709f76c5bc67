pub mod canvas;
pub mod depth;
pub mod media;
pub mod ppm;
pub mod scene;
