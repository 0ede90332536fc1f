pub mod api;
pub mod clock;
pub mod codec;
pub mod events;
pub mod generation;
pub mod limits;
pub mod model;
pub mod paths;
pub mod runtime;
pub mod secrets;
pub mod store;
pub mod text;
