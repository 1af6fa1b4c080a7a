pub mod ability_system_component;
