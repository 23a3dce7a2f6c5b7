pub mod link_map;
pub mod page_map;
