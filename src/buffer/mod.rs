pub mod buffer_pool_manager;
pub mod clock_replacer;
pub mod replace;
