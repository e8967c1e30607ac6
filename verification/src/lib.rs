pub mod capture;
pub mod capture_guard;
pub mod clock;
pub mod dev_bridge;
pub mod models;
pub mod recognition;
pub mod storage;
pub mod summary;
pub mod text;
