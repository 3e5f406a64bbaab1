pub mod sync_manager;
