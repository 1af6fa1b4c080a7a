pub mod attribute;
pub mod attribute_aggregator;
pub mod attribute_id_manager;
pub mod attribute_set;
