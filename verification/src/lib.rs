//! A minimal CRUD service core for a single "car" resource.
//!
//! The verified library holds the wire codec (raw request text to
//! method/path/body and back), the path extractor, the JSON codec for the
//! car entity, the router, and a store model whose contracts state what each
//! CRUD operation does.  The surrounding process (sockets, the relational
//! backend) drives this core from outside.

pub mod codec;
pub mod json;
pub mod router;
pub mod store;
pub mod vehicle;
