pub mod disk_manager;
