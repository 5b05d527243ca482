//! Services: the use cases of the knowledge base, written against the ports.

pub mod graph_service;
pub mod kb_service;
