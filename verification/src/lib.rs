pub mod queue;
pub mod routing;
pub mod task_manager;
