use vstd::prelude::*;
use vstd::string::*;
use crate::tree::{DirectoryNode, parent_of, parent_path};

verus! {

/// One file or directory as the browser lists it.
#[derive(Debug)]
pub struct FileItem {
    pub name: String,
    pub file_type: String,
    pub path: String,
    pub size: Option<String>,
}

/// One layer of an inspected image, with the files shown for it.
#[derive(Debug)]
pub struct DockerLayer {
    pub id: String,
    pub name: String,
    pub command: String,
    pub size: String,
    pub created_at: String,
    pub files: Vec<FileItem>,
}

/// An inspected image and its layers.
#[derive(Debug)]
pub struct DockerImageInfo {
    pub id: String,
    pub name: String,
    pub created: String,
    pub size: String,
    pub layers: Vec<DockerLayer>,
}

/// One row of the image list.
#[derive(Debug)]
pub struct DockerImage {
    pub id: String,
    pub repository: String,
    pub tag: String,
    pub created: String,
    pub size: String,
}

/// What one Dockerfile line does to the image.
#[derive(Debug)]
pub struct DockerfileAnalysisItem {
    pub line_number: u32,
    pub instruction: String,
    pub impact: String,
}

/// A suggestion for a smaller or better cached image.
#[derive(Debug)]
pub struct DockerfileOptimizationSuggestion {
    pub title: String,
    pub description: String,
}

/// The findings of a Dockerfile analysis.
#[derive(Debug)]
pub struct DockerfileAnalysis {
    pub layer_impact: Vec<DockerfileAnalysisItem>,
    pub optimization_suggestions: Vec<DockerfileOptimizationSuggestion>,
}

/// The stored state of one top-level directory of a staging area.
#[derive(Debug)]
pub struct LazyDirectoryInfo {
    pub path: String,
    pub is_extracted: bool,
    pub child_count: usize,
}

/// The last component of path `c`: what follows the directory it lies in.
pub open spec fn last_component(c: Seq<char>) -> Seq<char> {
    match parent_of(c) {
        Some(a) => c.subrange(a.len() as int + 1, c.len() as int),
        None => c,
    }
}

/// The size shown for an entry whose size is not known until it is extracted.
pub open spec fn pending_marker() -> Seq<char> {
    seq!['p', 'e', 'n', 'd', 'i', 'n', 'g']
}

pub open spec fn directory_type() -> Seq<char> {
    seq!['d', 'i', 'r', 'e', 'c', 't', 'o', 'r', 'y']
}

pub open spec fn regular_file_type() -> Seq<char> {
    seq!['f', 'i', 'l', 'e']
}

/// The browser row of `node`, whose extracted copy lies under `root`. A pending node
/// shows the pending marker for its size; another directory shows none; another file
/// shows `size`.
pub fn file_item_of(node: &DirectoryNode, root: &str, size: Option<String>) -> (r: FileItem)
    ensures
        r.name@ == last_component(node.relative_path@),
        r.file_type@ == if node.is_directory {
            directory_type()
        } else {
            regular_file_type()
        },
        r.path@ == root@ + seq!['/'] + node.relative_path@,
        node.pending ==> (r.size matches Some(s) && s@ == pending_marker()),
        !node.pending && node.is_directory ==> r.size is None,
        !node.pending && !node.is_directory ==> r.size == size,
{
    proof {
        reveal_strlit("/");
        reveal_strlit("pending");
        reveal_strlit("directory");
        reveal_strlit("file");
    }
    let rel = node.relative_path.as_str();
    let n = rel.unicode_len();
    let name = match parent_path(rel) {
        Some(p) => {
            let k = p.as_str().unicode_len();
            proof {
                crate::tree::lemma_parent_is_longest_ancestor(rel@);
            }
            String::from_str(rel.substring_char(k + 1, n))
        },
        None => String::from_str(rel),
    };
    let mut path = String::from_str(root);
    path.append("/");
    path.append(rel);
    let kind = if node.is_directory {
        String::from_str("directory")
    } else {
        String::from_str("file")
    };
    let shown = if node.pending {
        Some(String::from_str("pending"))
    } else if node.is_directory {
        None
    } else {
        size
    };
    assert(kind@ =~= if node.is_directory { directory_type() } else { regular_file_type() });
    FileItem { name, file_type: kind, path, size: shown }
}


/// The stored records of the directories among `nodes`, in order.
pub open spec fn directory_records(nodes: Seq<DirectoryNode>) -> Seq<(Seq<char>, bool, usize)>
    decreases nodes.len(),
{
    if nodes.len() == 0 {
        Seq::empty()
    } else if nodes.last().is_directory {
        directory_records(nodes.drop_last()).push(
            (nodes.last().relative_path@, nodes.last().extracted, nodes.last().child_count),
        )
    } else {
        directory_records(nodes.drop_last())
    }
}

pub open spec fn record_views(v: Seq<LazyDirectoryInfo>) -> Seq<(Seq<char>, bool, usize)> {
    v.map_values(|d: LazyDirectoryInfo| (d.path@, d.is_extracted, d.child_count))
}

/// The sidecar records of a directory listing: one for each directory, with whether it
/// is extracted and how many entries lie directly in it.
pub fn lazy_directories(nodes: &Vec<DirectoryNode>) -> (r: Vec<LazyDirectoryInfo>)
    ensures
        record_views(r@) == directory_records(nodes@),
{
    let mut out: Vec<LazyDirectoryInfo> = Vec::new();
    let mut i: usize = 0;
    while i < nodes.len()
        invariant
            i <= nodes@.len(),
            record_views(out@) == directory_records(nodes@.subrange(0, i as int)),
        decreases nodes@.len() - i,
    {
        let ghost before = record_views(out@);
        assert(nodes@.subrange(0, i + 1).drop_last() =~= nodes@.subrange(0, i as int));
        assert(nodes@.subrange(0, i + 1).last() == nodes@[i as int]);
        let n = &nodes[i];
        if n.is_directory {
            out.push(LazyDirectoryInfo {
                path: n.relative_path.clone(),
                is_extracted: n.extracted,
                child_count: n.child_count,
            });
            assert(record_views(out@) =~= before.push((n.relative_path@, n.extracted, n.child_count)));
        }
        i = i + 1;
    }
    assert(nodes@.subrange(0, nodes@.len() as int) =~= nodes@);
    out
}

} // verus!
