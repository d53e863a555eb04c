pub mod uuid_value;
pub mod system_id;
pub mod component_id;
pub mod signal;
