pub mod gameplay_ability;
