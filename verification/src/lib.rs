//! A library that turns encyclopedia dump files (batched SQL-style insert
//! statements describing pages, redirects and page-to-page links) into a
//! compact queryable graph, and answers shortest-path queries over it.
//!
//! The pieces, leaf first: record extractors that turn one raw dump line into
//! typed records; a page index (`PageMap`) that maps page ids to titles and
//! collapses redirect chains; a link graph (`LinkMap`) holding a forward
//! adjacency list; a breadth-first shortest-path search; and a snapshot codec
//! that writes the pair (page index, link graph) to one binary blob and reads
//! it back.

pub mod data;
pub mod indication;
pub mod lookup;
pub mod pages;
pub mod redirects;
pub mod remap;
pub mod serialize;
pub mod shortest_path;
