//! Ring-avatar compositing: overlay a circular ring decoration on a square
//! avatar image, scale the avatar into the ring's opening, and clip the
//! result to a clean circular silhouette.

pub mod compositor;
pub mod pixel;
pub mod resize;
pub mod roles;
