//! Locating the lattice in a frame and laying out the spots on it.
pub mod disk;
pub mod turn;
pub mod lattice;
pub mod laws;
pub mod template;
pub mod correlate;
pub mod locate;
pub mod refine;

pub use disk::create_disk_coordinates;
pub use lattice::{generate_grid_coordinates, lattice_bounds, layout_fits, LatticeBounds};
pub use turn::rotate_point;
pub use refine::refine_grid_positions;
pub use locate::{find_grid_center, process_gridding};
pub use template::{calculate_grid_coordinates, make_template};
pub use correlate::{cross_correlation, fftshift, find_max_2d, template_correlation};
