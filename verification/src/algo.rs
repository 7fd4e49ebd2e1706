pub mod spelling;
pub mod graph;
pub mod dictionary;
pub mod lattice;
pub mod syllabifier;
