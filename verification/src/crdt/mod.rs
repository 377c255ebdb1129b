//! The replicated data: annotations whose fields are last-write-wins
//! registers, and the environment that holds them and merges replicas.

pub mod annotation;
pub mod clock;
pub mod environment;
pub mod ids;
pub mod point;
pub mod register;

pub use annotation::{SpatialAnnotation, SpatialAnnotationInternal};
pub use clock::Timestamp;
pub use environment::SpatialEnvironment;
pub use ids::{AnnotationId, UserId};
pub use point::{Point, PointParseError};
pub use register::LwwRegister;
