pub mod block;
pub mod network;
pub mod pool;
pub mod system;
pub mod user;
pub mod volume;
