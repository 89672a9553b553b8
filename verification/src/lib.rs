//! A monitor-layout geometry engine: rectangles with integer positions and
//! positive sizes are arranged on a plane, and every edit keeps the
//! arrangement sensible — adjacent rectangles are detected by exact shared
//! edges, directional moves swap or slide, floating rectangles are snapped
//! back, overlaps are pushed apart, and the whole layout can be normalized
//! to the origin.

pub mod arrange;
pub mod connect;
pub mod geom;
pub mod moves;
pub mod overlap;
pub mod preset;
pub mod repair;
pub mod search;
pub mod snap;

