pub mod directions;
pub mod projector;
pub mod spiral;
pub mod square_matrix;
pub mod ulam_spiral;
pub mod utils;
