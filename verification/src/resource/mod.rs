//! Resources that a task may own, and the conditions it may wait for.
pub mod manager;
pub mod request;
pub mod resource;

pub use manager::ResourceManager;
pub use request::Request;
pub use resource::TaskResource;
