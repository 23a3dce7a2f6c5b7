pub mod algorithm;
pub mod database;
pub mod links;
pub mod maps;
pub mod parsers;
