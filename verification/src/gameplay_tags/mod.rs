pub mod gameplay_tag;
pub mod gameplay_tag_bits;
pub mod gameplay_tag_container;
pub mod gameplay_tag_container_pool;
pub mod gameplay_tag_manager;
pub mod gameplay_tag_operation;
