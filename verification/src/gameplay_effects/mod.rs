pub mod active_gameplay_effect;
pub mod gameplay_effect;
pub mod gameplay_effect_context;
pub mod gameplay_effect_spec;
