//! Rendering and animation engine for layered overlay widgets: the scene
//! model, the shared styling routine, static composition, keyframe
//! interpolation with easing, content fingerprints for change detection,
//! widget lookup across stored overlays and the newest-first listing order.
use vstd::prelude::*;

pub mod color;
pub mod compose;
pub mod easing;
pub mod fingerprint;
pub mod order;
pub mod resolve;
pub mod scene;
pub mod style;
pub mod timeline;
pub mod storage;
pub mod text;

verus! {

} // verus!
