//! What holds of the library as a whole.

pub mod arrays;
pub mod blocks;
pub mod cache;
pub mod chunks;
pub mod delta;
pub mod elements;
pub mod experts;
pub mod families;
pub mod feeds;
pub mod gated;
pub mod heads;
pub mod hybrid;
pub mod hybrid_model;
pub mod latent;
pub mod lookup;
pub mod masks;
pub mod model;
pub mod moves;
pub mod parts;
pub mod recurrence;
pub mod rope;
pub mod sampling;
pub mod shapes;
pub mod tables;
pub mod tracks;
pub mod tracks_linear;
pub mod vision;
pub mod weights;
