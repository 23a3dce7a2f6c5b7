pub mod common;
pub mod links;
pub mod pages;
pub mod redirects;
