use vstd::prelude::*;

verus! {

/// One layer of an image's history.
#[derive(Debug, Clone)]
pub struct DockerLayer {
    pub id: String,
    pub created_by: String,
    pub size: u64,
    pub created_at: String,
}

/// An image with its tags and layers.
#[derive(Debug, Clone)]
pub struct DockerImage {
    pub id: String,
    pub tags: Vec<String>,
    pub layers: Vec<DockerLayer>,
}

} // verus!
