use vstd::prelude::*;
use crate::lookup::find_by;
use crate::types::{ArrayIndices, ChunkInfo, ChunkPayload, NodeStructure, Path, TableRegion};

verus! {

/// Matches a node whose path is `p`.
pub open spec fn node_path_is(p: Seq<char>) -> spec_fn(NodeStructure) -> bool {
    |n: NodeStructure| n.path@ == p
}

/// Immutable catalog of the nodes of a snapshot.
#[derive(Debug)]
pub struct StructureTable {
    pub nodes: Vec<NodeStructure>,
}

/// Builds a structure table holding `nodes` in the order given.
pub fn mk_structure_table(nodes: Vec<NodeStructure>) -> (r: StructureTable)
    ensures
        r.nodes@ == nodes@,
{
    StructureTable { nodes }
}

impl StructureTable {
    /// The node at `p`, if the table holds one.
    pub open spec fn node_at(&self, p: Seq<char>) -> Option<NodeStructure> {
        find_by(self.nodes@, node_path_is(p))
    }

    /// Looks up the node at `path`.
    pub fn get_node(&self, path: &Path) -> (r: Option<NodeStructure>)
        ensures
            match r {
                Some(n) => self.node_at(path@) matches Some(m) && n@ == m@,
                None => self.node_at(path@) is None,
            },
    {
        let ghost m = node_path_is(path@);
        let mut i: usize = self.nodes.len();
        assert(self.nodes@.subrange(0, i as int) =~= self.nodes@);
        while i > 0
            invariant
                i <= self.nodes@.len(),
                m == node_path_is(path@),
                find_by(self.nodes@, m) == find_by(self.nodes@.subrange(0, i as int), m),
            decreases i,
        {
            let ghost pre = self.nodes@.subrange(0, i as int);
            assert(pre.last() == self.nodes@[i - 1]);
            if self.nodes[i - 1].path == *path {
                return Some(self.nodes[i - 1].clone());
            }
            assert(pre.drop_last() =~= self.nodes@.subrange(0, i - 1));
            i = i - 1;
        }
        assert(self.nodes@.subrange(0, 0) =~= Seq::<NodeStructure>::empty());
        None
    }
}

/// The last row of `rows[lo..hi)` at coordinate `c`, if any.
pub open spec fn find_row(rows: Seq<ChunkInfo>, lo: int, hi: int, c: Seq<u64>) -> Option<ChunkInfo>
    decreases hi - lo,
{
    if hi <= lo || hi > rows.len() {
        None
    } else if rows[hi - 1].coord@ == c {
        Some(rows[hi - 1])
    } else {
        find_row(rows, lo, hi - 1, c)
    }
}

/// End of a region, cut at the end of the table.
pub open spec fn region_end(rows: Seq<ChunkInfo>, location: TableRegion) -> int {
    if location.1 as int <= rows.len() {
        location.1 as int
    } else {
        rows.len() as int
    }
}

/// Immutable sequence of chunk records.
#[derive(Debug)]
pub struct ManifestsTable {
    pub chunks: Vec<ChunkInfo>,
}

/// Builds a manifest table holding `chunks` in the order given.
pub fn mk_manifests_table(chunks: Vec<ChunkInfo>) -> (r: ManifestsTable)
    ensures
        r.chunks@ == chunks@,
{
    ManifestsTable { chunks }
}

impl ManifestsTable {
    /// The payload stored at `c` within the region `location`.
    pub open spec fn payload_in(&self, c: Seq<u64>, location: TableRegion) -> Option<ChunkPayload> {
        match find_row(
            self.chunks@,
            location.0 as int,
            region_end(self.chunks@, location),
            c,
        ) {
            Some(row) => Some(row.payload),
            None => None,
        }
    }

    /// Looks up the chunk at `coord` within the rows of `location`.
    pub fn get_chunk_info(&self, coord: &ArrayIndices, location: &TableRegion) -> (r: Option<
        ChunkInfo,
    >)
        ensures
            match r {
                Some(c) => find_row(
                    self.chunks@,
                    location.0 as int,
                    region_end(self.chunks@, *location),
                    coord@,
                ) matches Some(row) && c@ == row@,
                None => find_row(
                    self.chunks@,
                    location.0 as int,
                    region_end(self.chunks@, *location),
                    coord@,
                ) is None,
            },
    {
        let len: usize = self.chunks.len();
        let mut hi: usize = if location.1 <= len as u64 {
            location.1 as usize
        } else {
            len
        };
        while hi as u64 > location.0
            invariant
                hi <= self.chunks@.len(),
                len == self.chunks@.len(),
                find_row(
                    self.chunks@,
                    location.0 as int,
                    region_end(self.chunks@, *location),
                    coord@,
                ) == find_row(self.chunks@, location.0 as int, hi as int, coord@),
            decreases hi,
        {
            if self.chunks[hi - 1].coord.same_as(coord) {
                return Some(self.chunks[hi - 1].clone());
            }
            hi = hi - 1;
        }
        None
    }
}


/// What `find_row` finds is a row of the range at the coordinate sought, and
/// when it finds nothing no row of the range is at that coordinate.
pub proof fn lemma_find_row(rows: Seq<ChunkInfo>, lo: int, hi: int, c: Seq<u64>)
    requires
        0 <= lo,
        hi <= rows.len(),
    ensures
        find_row(rows, lo, hi, c) matches Some(x) ==> exists|j: int|
            lo <= j < hi && #[trigger] rows[j] == x && x.coord@ == c,
        find_row(rows, lo, hi, c) is None ==> forall|j: int|
            lo <= j < hi ==> (#[trigger] rows[j]).coord@ != c,
    decreases hi - lo,
{
    if hi > lo {
        lemma_find_row(rows, lo, hi - 1, c);
        if rows[hi - 1].coord@ == c {
            assert(rows[hi - 1] == find_row(rows, lo, hi, c).unwrap());
        }
    }
}

} // verus!
