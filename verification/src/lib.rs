//! Collaborative spatial annotations kept as last-write-wins registers, so that
//! two replicas that edit offline converge to the same state once they exchange
//! their data.

pub mod cli;
pub mod crdt;
pub mod sync;
pub mod text;

pub use crdt::{
    AnnotationId, LwwRegister, Point, PointParseError, SpatialAnnotation,
    SpatialAnnotationInternal, SpatialEnvironment, Timestamp, UserId,
};
