pub mod auth;
pub mod hash;
pub mod node;
pub mod tree;

pub use auth::MerkleProof;
pub use hash::Sha256;
pub use tree::MerkleTree;
