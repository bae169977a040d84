use vstd::prelude::*;
use crate::lookup::{find_by, lemma_find_by_push, lemma_find_by_update};
use crate::types::{ChunkInfo, ChunkView, NodeId, TableRegion};

verus! {

/// Region of the rows of node `n` in `rows`: from its first row to one past
/// its last row.
pub open spec fn region_of_rows(rows: Seq<ChunkView>, n: NodeId) -> Option<TableRegion>
    decreases rows.len(),
{
    if rows.len() == 0 {
        None
    } else {
        let prev = region_of_rows(rows.drop_last(), n);
        if rows.last().node == n {
            match prev {
                Some(r) => Some(TableRegion(r.0, rows.len() as u64)),
                None => Some(TableRegion((rows.len() - 1) as u64, rows.len() as u64)),
            }
        } else {
            prev
        }
    }
}

/// Matches the entry of node `n`.
pub open spec fn node_is(n: NodeId) -> spec_fn((NodeId, TableRegion)) -> bool {
    |e: (NodeId, TableRegion)| e.0 == n
}

/// The recorded region starts at the node's first row and ends one past its
/// last row; no row outside it belongs to the node, and a node without a
/// region has no row.
pub proof fn lemma_region_bounds(rows: Seq<ChunkView>, n: NodeId)
    requires
        rows.len() <= u64::MAX,
    ensures
        region_of_rows(rows, n) matches Some(r) ==> {
            &&& r.0 < r.1 <= rows.len()
            &&& rows[r.0 as int].node == n
            &&& rows[r.1 - 1].node == n
            &&& forall|j: int|
                0 <= j < rows.len() && (j < r.0 || j >= r.1) ==> #[trigger] rows[j].node != n
        },
        region_of_rows(rows, n) is None ==> forall|j: int| 0 <= j < rows.len() ==> #[trigger] rows[j].node != n,
    decreases rows.len(),
{
    if rows.len() > 0 {
        let pre = rows.drop_last();
        lemma_region_bounds(pre, n);
        assert forall|j: int| 0 <= j < pre.len() implies pre[j] == rows[j] by {}
    }
}

/// When the rows of node `n` are contiguous, its region holds exactly them.
pub proof fn lemma_contiguous_region(rows: Seq<ChunkView>, n: NodeId)
    requires
        rows.len() <= u64::MAX,
        forall|i: int, j: int, k: int|
            #![trigger rows[i].node, rows[j].node, rows[k].node]
            0 <= i < j < k < rows.len() && rows[i].node == n && rows[k].node == n
                ==> rows[j].node == n,
    ensures
        region_of_rows(rows, n) matches Some(r) ==> forall|j: int|
            0 <= j < rows.len() ==> (r.0 <= j < r.1 <==> #[trigger] rows[j].node == n),
{
    lemma_region_bounds(rows, n);
    if let Some(r) = region_of_rows(rows, n) {
        assert forall|j: int| 0 <= j < rows.len() implies (r.0 <= j < r.1 <==> #[trigger] rows[j].node
            == n) by {
            if r.0 < j < r.1 - 1 {
                assert(rows[r.0 as int].node == n && rows[r.1 - 1].node == n);
            }
        }
    }
}

/// Assigns each node the rows it occupies in a manifest being built.
pub struct TableRegionTracker {
    pub regions: Vec<(NodeId, TableRegion)>,
    pub next: u64,
    pub rows: Ghost<Seq<ChunkView>>,
}

impl TableRegionTracker {
    /// `next` counts the rows seen, and each node's recorded region is
    /// `region_of_rows` of the rows seen.
    pub open spec fn wf(&self) -> bool {
        &&& self.next == self.rows@.len()
        &&& forall|n: NodeId|
            #![trigger find_by(self.regions@, node_is(n))]
            (match find_by(self.regions@, node_is(n)) {
                Some(e) => Some(e.1),
                None => None,
            }) == region_of_rows(self.rows@, n)
    }

    /// A tracker that has seen no row.
    pub fn new() -> (r: TableRegionTracker)
        ensures
            r.wf(),
            r.rows@ == Seq::<ChunkView>::empty(),
    {
        TableRegionTracker { regions: Vec::new(), next: 0, rows: Ghost(Seq::empty()) }
    }

    /// Records `chunk` as the next row.
    pub fn update(&mut self, chunk: &ChunkInfo)
        requires
            old(self).wf(),
            old(self).next < u64::MAX,
        ensures
            final(self).wf(),
            final(self).rows@ == old(self).rows@.push(chunk@),
    {
        let ghost s0 = self.regions@;
        let ghost rows1 = self.rows@.push(chunk@);
        assert(rows1.drop_last() =~= self.rows@);
        let found = self.find_node_index(chunk.node);
        match found {
            Some(k) => {
                let start = self.regions[k].1.0;
                self.regions.set(k, (chunk.node, TableRegion(start, self.next + 1)));
                proof {
                    assert forall|n: NodeId| #![trigger find_by(self.regions@, node_is(n))]
                        (match find_by(self.regions@, node_is(n)) {
                            Some(e) => Some(e.1),
                            None => None,
                        }) == region_of_rows(rows1, n) by {
                        lemma_find_by_update(s0, k as int, self.regions@[k as int], node_is(n));
                    }
                }
            },
            None => {
                self.regions.push((chunk.node, TableRegion(self.next, self.next + 1)));
                proof {
                    assert forall|n: NodeId| #![trigger find_by(self.regions@, node_is(n))]
                        (match find_by(self.regions@, node_is(n)) {
                            Some(e) => Some(e.1),
                            None => None,
                        }) == region_of_rows(rows1, n) by {
                        lemma_find_by_push(s0, self.regions@.last(), node_is(n));
                    }
                }
            },
        }
        self.next = self.next + 1;
        self.rows = Ghost(rows1);
    }

    /// The region recorded for `node`, if it has any row.
    pub fn region(&self, node: NodeId) -> (r: Option<TableRegion>)
        requires
            self.wf(),
        ensures
            r == region_of_rows(self.rows@, node),
    {
        match self.find_node_index(node) {
            Some(k) => Some(self.regions[k].1),
            None => None,
        }
    }

    /// Index of the last entry of `node`, if any.
    fn find_node_index(&self, node: NodeId) -> (r: Option<usize>)
        ensures
            match r {
                Some(k) => k < self.regions@.len() && self.regions@[k as int].0 == node
                    && (forall|j: int| k < j < self.regions@.len() ==> self.regions@[j].0 != node)
                    && find_by(self.regions@, node_is(node)) == Some(self.regions@[k as int]),
                None => find_by(self.regions@, node_is(node)) is None,
            },
    {
        let ghost m = node_is(node);
        let mut i: usize = self.regions.len();
        assert(self.regions@.subrange(0, i as int) =~= self.regions@);
        while i > 0
            invariant
                i <= self.regions@.len(),
                m == node_is(node),
                find_by(self.regions@, m) == find_by(self.regions@.subrange(0, i as int), m),
                forall|j: int| i <= j < self.regions@.len() ==> self.regions@[j].0 != node,
            decreases i,
        {
            let ghost pre = self.regions@.subrange(0, i as int);
            assert(pre.last() == self.regions@[i - 1]);
            if self.regions[i - 1].0 == node {
                return Some(i - 1);
            }
            assert(pre.drop_last() =~= self.regions@.subrange(0, i - 1));
            i = i - 1;
        }
        assert(self.regions@.subrange(0, 0) =~= Seq::<(NodeId, TableRegion)>::empty());
        None
    }
}

} // verus!
