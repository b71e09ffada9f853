use vstd::prelude::*;
use crate::error::EngineError;
use crate::layer_ref::{layer_number, parse_layer_number};
use crate::tree::{DirectoryNode, LayerTree, children_listing, extraction_after};
use crate::diff::names;
use crate::toc::{dirs_with_ancestors, is_ancestor, listed_dirs, listed_paths, with_ancestors};

verus! {

/// Where the export of one layer stands.
#[derive(PartialEq, Eq, Structural)]
pub enum ExportStatus {
    InFlight,
    Ready,
}

/// What a request to export a layer started.
#[derive(PartialEq, Eq, Structural, Debug)]
pub enum ExportStart {
    /// A new export: the staging area is the caller's to fill.
    Started,
    /// The staging area of an earlier export is reused.
    Reused,
}

struct Slot {
    layer: usize,
    tree: Option<LayerTree>,
}

/// The staging areas of the exported layers: at most one per layer, each either being
/// exported or ready to browse.
pub struct StagingRegistry {
    slots: Vec<Slot>,
}

impl StagingRegistry {
    pub closed spec fn wf(&self) -> bool {
        &&& forall|i: int, j: int|
            0 <= i < j < self.slots@.len() ==> #[trigger] self.slots@[i].layer
                != #[trigger] self.slots@[j].layer
        &&& forall|i: int|
            0 <= i < self.slots@.len() ==> (#[trigger] self.slots@[i].tree matches Some(t) ==> t.wf())
    }

    closed spec fn index_of(&self, layer: usize) -> int {
        choose|i: int| 0 <= i < self.slots@.len() && self.slots@[i].layer == layer
    }

    closed spec fn holds(&self, layer: usize) -> bool {
        exists|i: int| 0 <= i < self.slots@.len() && #[trigger] self.slots@[i].layer == layer
    }

    /// The status of `layer`'s export, `None` where it was never exported.
    pub closed spec fn status_of(&self, layer: usize) -> Option<ExportStatus> {
        if self.holds(layer) {
            if self.slots@[self.index_of(layer)].tree is Some {
                Some(ExportStatus::Ready)
            } else {
                Some(ExportStatus::InFlight)
            }
        } else {
            None
        }
    }

    /// The tree of a ready layer.
    pub closed spec fn tree_of(&self, layer: usize) -> LayerTree {
        self.slots@[self.index_of(layer)].tree->0
    }

    /// A registry with no layer exported.
    pub fn new() -> (r: StagingRegistry)
        ensures
            r.wf(),
            forall|l: usize| #[trigger] r.status_of(l) is None,
    {
        StagingRegistry { slots: Vec::new() }
    }

    /// The position of `layer`'s slot.
    fn find(&self, layer: usize) -> (r: Option<usize>)
        requires
            self.wf(),
        ensures
            match r {
                Some(i) => self.holds(layer) && i == self.index_of(layer) && i < self.slots@.len(),
                None => !self.holds(layer),
            },
    {
        let n = self.slots.len();
        let mut i: usize = 0;
        while i < n
            invariant
                self.wf(),
                n == self.slots@.len(),
                i <= n,
                forall|k: int| 0 <= k < i ==> self.slots@[k].layer != layer,
            decreases n - i,
        {
            if self.slots[i].layer == layer {
                proof {
                    assert(self.slots@[i as int].layer == layer);
                    assert(self.holds(layer));
                    let c = self.index_of(layer);
                    if c != i {
                        if c < i {
                            assert(self.slots@[c].layer != self.slots@[i as int].layer);
                        } else {
                            assert(self.slots@[i as int].layer != self.slots@[c].layer);
                        }
                    }
                }
                return Some(i);
            }
            i = i + 1;
        }
        None
    }

    /// Asks to export `layer`. While an export of it is under way, fails with
    /// `ExportInProgress` and changes nothing; where it is ready, reuses it unless `force`
    /// asks for a clean export; otherwise the layer is marked as being exported.
    pub fn begin_export(&mut self, layer: usize, force: bool) -> (r: Result<ExportStart, EngineError>)
        requires
            old(self).wf(),
        ensures
            final(self).wf(),
            old(self).status_of(layer) == Some(ExportStatus::InFlight) ==> (r matches Err(
                EngineError::ExportInProgress,
            )),
            r is Err ==> final(self).status_of(layer) == old(self).status_of(layer),
            old(self).status_of(layer) == Some(ExportStatus::Ready) && !force ==> r == Ok::<
                ExportStart,
                EngineError,
            >(ExportStart::Reused) && final(self).tree_of(layer) == old(self).tree_of(layer),
            (old(self).status_of(layer) is None || (old(self).status_of(layer) == Some(
                ExportStatus::Ready,
            ) && force)) ==> r == Ok::<ExportStart, EngineError>(ExportStart::Started),
            r is Ok ==> final(self).status_of(layer) == if r == Ok::<ExportStart, EngineError>(
                ExportStart::Started,
            ) {
                Some(ExportStatus::InFlight)
            } else {
                Some(ExportStatus::Ready)
            },
            forall|l: usize| l != layer ==> #[trigger] final(self).status_of(l) == old(self).status_of(l)
                && (final(self).status_of(l) == Some(ExportStatus::Ready) ==> final(self).tree_of(l)
                == old(self).tree_of(l)),
    {
        match self.find(layer) {
            Some(i) => {
                if self.slots[i].tree.is_none() {
                    return Err(EngineError::ExportInProgress);
                }
                if !force {
                    return Ok(ExportStart::Reused);
                }
                let ghost before = self.slots@;
                self.slots.set(i, Slot { layer, tree: None });
                proof {
                    assert forall|l: usize| l != layer implies #[trigger] self.holds(l) == old(self).holds(l) by {
                        if old(self).holds(l) {
                            let k = choose|k: int| 0 <= k < before.len() && #[trigger] before[k].layer == l;
                            assert(self.slots@[k].layer == l);
                        }
                        if self.holds(l) {
                            let k = choose|k: int| 0 <= k < self.slots@.len() && #[trigger] self.slots@[k].layer == l;
                            assert(before[k].layer == l);
                        }
                    }
                    assert(self.slots@[i as int].layer == layer);
                    assert(self.holds(layer));
                    assert forall|l: usize| self.holds(l) implies #[trigger] self.index_of(l) == old(self).index_of(l) by {
                        let a = self.index_of(l);
                        let b = old(self).index_of(l);
                        if l == layer {
                            assert(old(self).holds(layer));
                        } else {
                            assert(old(self).holds(l));
                        }
                        if a != b {
                            if a < b {
                                assert(self.slots@[a].layer != self.slots@[b].layer);
                            } else {
                                assert(self.slots@[b].layer != self.slots@[a].layer);
                            }
                        }
                    }
                }
                Ok(ExportStart::Started)
            },
            None => {
                let ghost before = self.slots@;
                self.slots.push(Slot { layer, tree: None });
                proof {
                    assert(self.slots@[before.len() as int].layer == layer);
                    assert forall|l: usize| l != layer implies #[trigger] self.holds(l) == old(self).holds(l) by {
                        if old(self).holds(l) {
                            let k = choose|k: int| 0 <= k < before.len() && #[trigger] before[k].layer == l;
                            assert(self.slots@[k].layer == l);
                        }
                        if self.holds(l) {
                            let k = choose|k: int| 0 <= k < self.slots@.len() && #[trigger] self.slots@[k].layer == l;
                            assert(before[k].layer == l);
                        }
                    }
                    assert forall|l: usize| self.holds(l) implies #[trigger] self.index_of(l) == (if l == layer {
                        before.len() as int
                    } else {
                        old(self).index_of(l)
                    }) by {
                        let a = self.index_of(l);
                        let b = if l == layer { before.len() as int } else { old(self).index_of(l) };
                        if l != layer {
                            assert(old(self).holds(l));
                        }
                        if a != b {
                            if a < b {
                                assert(self.slots@[a].layer != self.slots@[b].layer);
                            } else {
                                assert(self.slots@[b].layer != self.slots@[a].layer);
                            }
                        }
                    }
                }
                Ok(ExportStart::Started)
            },
        }
    }

    /// Replacing slots by slots of the same layers moves no layer.
    proof fn lemma_same_layers(a: &Self, b: &Self)
        requires
            a.wf(),
            a.slots@.len() == b.slots@.len(),
            forall|k: int| 0 <= k < a.slots@.len() ==> #[trigger] a.slots@[k].layer == b.slots@[k].layer,
        ensures
            forall|l: usize| #[trigger] b.holds(l) == a.holds(l),
            forall|l: usize| a.holds(l) ==> #[trigger] b.index_of(l) == a.index_of(l),
    {
        assert forall|l: usize| #[trigger] b.holds(l) == a.holds(l) by {
            if a.holds(l) {
                let k = choose|k: int| 0 <= k < a.slots@.len() && #[trigger] a.slots@[k].layer == l;
                assert(b.slots@[k].layer == l);
            }
            if b.holds(l) {
                let k = choose|k: int| 0 <= k < b.slots@.len() && #[trigger] b.slots@[k].layer == l;
                assert(a.slots@[k].layer == l);
            }
        }
        assert forall|l: usize| a.holds(l) implies #[trigger] b.index_of(l) == a.index_of(l) by {
            assert(b.holds(l));
            let x = b.index_of(l);
            let y = a.index_of(l);
            assert(a.slots@[x].layer == l);
            if x != y {
                if x < y {
                    assert(a.slots@[x].layer != a.slots@[y].layer);
                } else {
                    assert(a.slots@[y].layer != a.slots@[x].layer);
                }
            }
        }
    }

    /// Records that the export of `layer` completed: its tree is built from the lines of
    /// the archive's listing, with nothing extracted. Fails with `InvalidLayerReference`,
    /// changing nothing, where no export of `layer` is under way.
    pub fn finish_export(&mut self, layer: usize, lines: &Vec<String>) -> (r: Result<(), EngineError>)
        requires
            old(self).wf(),
        ensures
            final(self).wf(),
            r is Ok <==> old(self).status_of(layer) == Some(ExportStatus::InFlight),
            r is Err ==> (r matches Err(EngineError::InvalidLayerReference)),
            r is Ok ==> final(self).status_of(layer) == Some(ExportStatus::Ready),
            r is Ok ==> final(self).tree_of(layer).extracted_set() == Set::<Seq<char>>::empty(),
            r is Ok ==> final(self).tree_of(layer).dirs() == dirs_with_ancestors(
                listed_paths(names(lines@)),
                listed_dirs(names(lines@)),
            ),
            r is Ok ==> forall|p: Seq<char>|
                #[trigger] final(self).tree_of(layer).paths().contains(p) <==> with_ancestors(
                    listed_paths(names(lines@)),
                ).contains(p),
            r is Err ==> final(self).status_of(layer) == old(self).status_of(layer),
            forall|l: usize| l != layer ==> #[trigger] final(self).status_of(l) == old(self).status_of(l)
                && (final(self).status_of(l) == Some(ExportStatus::Ready) ==> final(self).tree_of(l)
                == old(self).tree_of(l)),
    {
        match self.find(layer) {
            Some(i) => {
                if self.slots[i].tree.is_some() {
                    return Err(EngineError::InvalidLayerReference);
                }
                let tree = LayerTree::from_listing(lines);
                self.slots.set(i, Slot { layer, tree: Some(tree) });
                proof {
                    Self::lemma_same_layers(old(self), self);
                    assert forall|i1: int, j1: int|
                        0 <= i1 < j1 < self.slots@.len() implies #[trigger] self.slots@[i1].layer
                            != #[trigger] self.slots@[j1].layer by {
                        assert(old(self).slots@[i1].layer != old(self).slots@[j1].layer);
                    }
                }
                Ok(())
            },
            None => Err(EngineError::InvalidLayerReference),
        }
    }

    /// Drops the staging area of a failed export of `layer`, so that a later request starts
    /// afresh. Where no export of `layer` is under way, changes nothing.
    pub fn abandon_export(&mut self, layer: usize)
        requires
            old(self).wf(),
        ensures
            final(self).wf(),
            old(self).status_of(layer) == Some(ExportStatus::InFlight) ==> final(self).status_of(layer) is None,
            old(self).status_of(layer) != Some(ExportStatus::InFlight) ==> final(self).status_of(layer)
                == old(self).status_of(layer),
            forall|l: usize| l != layer ==> #[trigger] final(self).status_of(l) == old(self).status_of(l)
                && (final(self).status_of(l) == Some(ExportStatus::Ready) ==> final(self).tree_of(l)
                == old(self).tree_of(l)),
    {
        match self.find(layer) {
            Some(i) => {
                if self.slots[i].tree.is_some() {
                    return;
                }
                let ghost before = self.slots@;
                self.slots.remove(i);
                proof {
                    let after = self.slots@;
                    assert(after =~= before.remove(i as int));
                    assert forall|i1: int, j1: int|
                        0 <= i1 < j1 < after.len() implies #[trigger] after[i1].layer != #[trigger] after[j1].layer by {
                        let a = if i1 < i { i1 } else { i1 + 1 };
                        let b = if j1 < i { j1 } else { j1 + 1 };
                        assert(before[a].layer != before[b].layer);
                    }
                    assert(!self.holds(layer)) by {
                        if self.holds(layer) {
                            let k = choose|k: int| 0 <= k < after.len() && #[trigger] after[k].layer == layer;
                            let a = if k < i { k } else { k + 1 };
                            assert(before[a].layer == layer);
                            assert(a != i);
                            if a < i {
                                assert(before[a].layer != before[i as int].layer);
                            } else {
                                assert(before[i as int].layer != before[a].layer);
                            }
                        }
                    }
                    assert forall|l: usize| l != layer implies #[trigger] self.status_of(l) == old(self).status_of(l)
                        && (self.status_of(l) == Some(ExportStatus::Ready) ==> self.tree_of(l)
                        == old(self).tree_of(l)) by {
                        if old(self).holds(l) {
                            let k = old(self).index_of(l);
                            assert(k != i);
                            let nk = if k < i { k } else { k - 1 };
                            assert(after[nk] == before[k]);
                            assert(self.holds(l));
                            let c = self.index_of(l);
                            if c != nk {
                                if c < nk {
                                    assert(after[c].layer != after[nk].layer);
                                } else {
                                    assert(after[nk].layer != after[c].layer);
                                }
                            }
                        }
                        if self.holds(l) {
                            let c = self.index_of(l);
                            let a = if c < i { c } else { c + 1 };
                            assert(before[a].layer == l);
                            assert(old(self).holds(l));
                        }
                    }
                }
            },
            None => {},
        }
    }

    /// Lists the entries lying directly in `dir` in the exported layer `layer_id`. Fails
    /// with `InvalidLayerReference` where the identifier is malformed or the layer is not
    /// ready to browse.
    pub fn browse(&self, layer_id: &str, dir: &str) -> (r: Result<Vec<DirectoryNode>, EngineError>)
        requires
            self.wf(),
        ensures
            (r matches Err(EngineError::InvalidLayerReference)) <==> match layer_number(layer_id@) {
                Some(n) => self.status_of(n as usize) != Some(ExportStatus::Ready),
                None => true,
            },
            r matches Ok(v) ==> match layer_number(layer_id@) {
                Some(n) => children_listing(self.tree_of(n as usize), dir@, v@),
                None => false,
            },
            r is Err ==> (r matches Err(EngineError::InvalidLayerReference)) || (r matches Err(
                EngineError::SubtreeNotFound,
            ) && dir@.len() > 0),
    {
        let n = match parse_layer_number(layer_id) {
            Some(n) => n,
            None => {
                return Err(EngineError::InvalidLayerReference);
            },
        };
        match self.find(n) {
            Some(i) => match &self.slots[i].tree {
                Some(t) => t.list_children(dir),
                None => Err(EngineError::InvalidLayerReference),
            },
            None => Err(EngineError::InvalidLayerReference),
        }
    }

    /// Extracts subtree `path` of the exported layer `layer_id`, as
    /// `LayerTree::extract_subtree` does. Fails with `InvalidLayerReference` where the
    /// identifier is malformed or the layer is not ready.
    pub fn extract(&mut self, layer_id: &str, path: &str) -> (r: Result<(), EngineError>)
        requires
            old(self).wf(),
        ensures
            final(self).wf(),
            (r matches Err(EngineError::InvalidLayerReference)) <==> match layer_number(layer_id@) {
                Some(n) => old(self).status_of(n as usize) != Some(ExportStatus::Ready),
                None => true,
            },
            forall|l: usize| #[trigger] final(self).status_of(l) == old(self).status_of(l),
            match layer_number(layer_id@) {
                Some(n) => old(self).status_of(n as usize) == Some(ExportStatus::Ready) ==> {
                    let t0 = old(self).tree_of(n as usize);
                    let t1 = final(self).tree_of(n as usize);
                    &&& t1.paths() == t0.paths()
                    &&& (r is Err <==> !t0.paths().contains(path@))
                    &&& r is Ok ==> t1.extracted_set() == extraction_after(t0.paths(), t0.extracted_set(), path@)
                    &&& r is Ok ==> forall|a: Seq<char>| #[trigger] is_ancestor(a, path@) ==> t1.extracted_set().contains(a)
                },
                None => true,
            },
            forall|l: usize|
                (layer_number(layer_id@) != Some(l as nat) && #[trigger] final(self).status_of(l) == Some(ExportStatus::Ready))
                    ==> final(self).tree_of(l) == old(self).tree_of(l),
    {
        let n = match parse_layer_number(layer_id) {
            Some(n) => n,
            None => {
                return Err(EngineError::InvalidLayerReference);
            },
        };
        match self.find(n) {
            Some(i) => {
                if self.slots[i].tree.is_none() {
                    return Err(EngineError::InvalidLayerReference);
                }
                let mut slot = self.slots.remove(i);
                let r = match &mut slot.tree {
                    Some(t) => t.extract_subtree(path),
                    None => Err(EngineError::InvalidLayerReference),
                };
                self.slots.insert(i, slot);
                proof {
                    assert forall|k: int| 0 <= k < old(self).slots@.len() implies #[trigger] old(self).slots@[k].layer
                        == self.slots@[k].layer by {
                        if k != i {
                            assert(self.slots@[k] == old(self).slots@[k]);
                        }
                    }
                    Self::lemma_same_layers(old(self), self);
                    assert forall|i1: int, j1: int|
                        0 <= i1 < j1 < self.slots@.len() implies #[trigger] self.slots@[i1].layer
                            != #[trigger] self.slots@[j1].layer by {
                        assert(old(self).slots@[i1].layer != old(self).slots@[j1].layer);
                    }
                    assert forall|k: int| 0 <= k < self.slots@.len() implies (#[trigger] self.slots@[k].tree matches Some(t) ==> t.wf()) by {
                        if k != i {
                            assert(self.slots@[k] == old(self).slots@[k]);
                        }
                    }
                }
                r
            },
            None => Err(EngineError::InvalidLayerReference),
        }
    }
}

} // verus!
