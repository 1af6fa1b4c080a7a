pub mod modifier;
