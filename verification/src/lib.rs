//! Screen automation core: locating a template image inside a captured
//! screen buffer, and planning and replaying an interpolated pointer path
//! between two screen coordinates.

pub mod errors;
pub mod geometry;
pub mod matcher;
pub mod planner;
pub mod player;
pub mod raster;

pub use errors::Error;
pub use geometry::Waypoint;
pub use matcher::locate;
pub use planner::Bounds;
pub use planner::Path;
pub use planner::plan;
pub use player::PointerEvent;
pub use player::PointerMover;
pub use player::RecordingMover;
pub use player::play;
pub use raster::Image;
pub use raster::Pixel;
pub use raster::rgb_from_rgba;
