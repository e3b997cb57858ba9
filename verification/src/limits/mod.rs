//! Layered tenant admission limits and bounded work controls.
pub mod admission;
pub mod rate;
pub mod cancellation;
pub mod deadline;
pub mod quota;
