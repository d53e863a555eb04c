pub mod system;
pub mod systems_chain;
pub mod systems_configuration_flow_manager;
