pub mod body;
pub mod collision;
pub mod id_map;
pub mod id_pool;
pub mod integrator;
pub mod soft_body;
pub mod storage;

pub use id_pool::Id;
