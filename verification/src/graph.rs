//! The commit graph: a flat arena of commit records plus parent edges
//! resolved by hash, with the unique root (tail) and the unique HEAD
//! located at construction time.
//!
//! The graph is built once from parsed log records and treated as an
//! immutable value afterwards; the one way to grow it is
//! `with_speculative_commit`, which returns a new graph with one extra
//! node grafted onto HEAD and never touches the original.

use crate::error::CcError;
use crate::logs::LogEntry;
use crate::logs::LogEntryV;
use crate::logs::Logs;
use crate::text::streq;
use vstd::prelude::*;

verus! {

/// Mathematical view of a `CommitGraph`.
#[verifier::ext_equal]
pub struct GraphV {
    pub nodes: Seq<LogEntryV>,
    pub parents: Seq<Seq<usize>>,
    pub head: int,
    pub tail: int,
}

impl GraphV {
    /// Well-formedness of a commit graph: records are well formed, the
    /// parent edges align index-for-index with the records' parent-hash
    /// lists, and the tail is the unique parentless node.
    pub open spec fn wf(self) -> bool {
        &&& self.parents.len() == self.nodes.len()
        &&& forall|i: int| 0 <= i < self.nodes.len() ==> (#[trigger] self.nodes[i]).wf()
        &&& forall|i: int|
            0 <= i < self.nodes.len() ==> (#[trigger] self.parents[i]).len()
                == self.nodes[i].parent_hashes.len()
        &&& forall|i: int, j: int|
            0 <= i < self.nodes.len() && 0 <= j < self.parents[i].len() ==> (
            #[trigger] self.parents[i][j]) < self.nodes.len()
        &&& forall|i: int, j: int|
            0 <= i < self.nodes.len() && 0 <= j < self.parents[i].len()
                ==> self.nodes[#[trigger] self.parents[i][j] as int].commit_hash
                == self.nodes[i].parent_hashes[j]
        &&& 0 <= self.head < self.nodes.len()
        &&& 0 <= self.tail < self.nodes.len()
        &&& self.parents[self.tail].len() == 0
        &&& forall|i: int|
            0 <= i < self.nodes.len() && i != self.tail ==> (#[trigger] self.parents[i]).len() > 0
    }
}

/// The first record carrying a given commit hash, if any.
pub open spec fn spec_find_hash(nodes: Seq<LogEntryV>, h: Seq<char>) -> Option<int>
    decreases nodes.len(),
{
    if nodes.len() == 0 {
        None
    } else if nodes[0].commit_hash == h {
        Some(0int)
    } else {
        match spec_find_hash(nodes.drop_first(), h) {
            Some(i) => Some(i + 1),
            None => None,
        }
    }
}

/// What a successful hash search means.
pub proof fn lemma_find_hash_some(nodes: Seq<LogEntryV>, h: Seq<char>)
    ensures
        match spec_find_hash(nodes, h) {
            Some(i) => 0 <= i < nodes.len() && nodes[i].commit_hash == h && forall|j: int|
                0 <= j < i ==> nodes[j].commit_hash != h,
            None => forall|j: int| 0 <= j < nodes.len() ==> nodes[j].commit_hash != h,
        },
    decreases nodes.len(),
{
    if nodes.len() > 0 && nodes[0].commit_hash != h {
        lemma_find_hash_some(nodes.drop_first(), h);
        match spec_find_hash(nodes.drop_first(), h) {
            Some(i) => {
                assert forall|j: int| 0 <= j < i + 1 implies nodes[j].commit_hash != h by {
                    if j > 0 {
                        assert(nodes.drop_first()[j - 1] == nodes[j]);
                    }
                }
                assert(nodes.drop_first()[i] == nodes[i + 1]);
            },
            None => {
                assert forall|j: int| 0 <= j < nodes.len() implies nodes[j].commit_hash != h by {
                    if j > 0 {
                        assert(nodes.drop_first()[j - 1] == nodes[j]);
                    }
                }
            },
        }
    }
}

/// A match at `i` behind an unmatched prefix settles the search.
pub proof fn lemma_find_hash_at(nodes: Seq<LogEntryV>, h: Seq<char>, i: int)
    requires
        0 <= i < nodes.len(),
        nodes[i].commit_hash == h,
        forall|j: int| 0 <= j < i ==> nodes[j].commit_hash != h,
    ensures
        spec_find_hash(nodes, h) == Some(i),
    decreases i,
{
    if i > 0 {
        lemma_find_hash_at(nodes.drop_first(), h, i - 1);
        assert(nodes.drop_first()[i - 1] == nodes[i]);
        assert forall|j: int| 0 <= j < i - 1 implies nodes.drop_first()[j].commit_hash != h by {
            assert(nodes.drop_first()[j] == nodes[j + 1]);
        }
    }
}

/// No match anywhere settles the search as empty.
pub proof fn lemma_find_hash_none(nodes: Seq<LogEntryV>, h: Seq<char>)
    requires
        forall|j: int| 0 <= j < nodes.len() ==> nodes[j].commit_hash != h,
    ensures
        spec_find_hash(nodes, h) is None,
    decreases nodes.len(),
{
    if nodes.len() > 0 {
        lemma_find_hash_none(nodes.drop_first(), h);
        assert(forall|j: int|
            0 <= j < nodes.drop_first().len() ==> nodes.drop_first()[j] == nodes[j + 1]);
    }
}

/// Finds the first record carrying a given commit hash.
fn find_hash(nodes: &Vec<LogEntry>, h: &str) -> (r: Option<usize>)
    ensures
        match r {
            Some(i) => spec_find_hash(
                Seq::new(nodes@.len(), |k: int| nodes@[k]@),
                h@,
            ) == Some(i as int),
            None => spec_find_hash(Seq::new(nodes@.len(), |k: int| nodes@[k]@), h@) is None,
        },
{
    let ghost s = Seq::new(nodes@.len(), |k: int| nodes@[k]@);
    let mut i: usize = 0;
    while i < nodes.len()
        invariant
            i <= nodes.len(),
            s == Seq::new(nodes@.len(), |k: int| nodes@[k]@),
            forall|j: int| 0 <= j < i ==> (#[trigger] s[j]).commit_hash != h@,
        decreases nodes.len() - i,
    {
        if streq(nodes[i].commit_hash.as_str(), h) {
            proof {
                lemma_find_hash_at(s, h@, i as int);
            }
            return Some(i);
        }
        i += 1;
    }
    proof {
        lemma_find_hash_none(s, h@);
    }
    None
}

/// The commit graph: the records as arena nodes, the parent edges, and
/// the indices of HEAD and of the root (tail).
#[derive(Debug)]
pub struct CommitGraph {
    /// The commit records, in log order.
    pub nodes: Vec<LogEntry>,
    /// For each node, the indices of its parents, aligned with the
    /// record's parent-hash list.
    pub parents: Vec<Vec<usize>>,
    /// The index of the commit carrying the HEAD marker.
    pub head: usize,
    /// The index of the unique parentless (root) commit.
    pub tail: usize,
}

impl View for CommitGraph {
    type V = GraphV;

    open spec fn view(&self) -> GraphV {
        GraphV {
            nodes: Seq::new(self.nodes@.len(), |i: int| self.nodes@[i]@),
            parents: Seq::new(self.parents@.len(), |i: int| self.parents@[i]@),
            head: self.head as int,
            tail: self.tail as int,
        }
    }
}

/// Whether a record is well formed, executably.
#[verifier::loop_isolation(false)]
fn record_wf(e: &LogEntry) -> (r: bool)
    ensures
        r == e@.wf(),
{
    if e.commit_epoch > crate::time::MAX_EPOCH_SECS {
        return false;
    }
    let h = e.commit_hash.as_str();
    let n = h.unicode_len();
    if n != 40 {
        return false;
    }
    let mut i: usize = 0;
    while i < n
        invariant
            i <= n,
            n == h@.len(),
            n == 40,
            forall|j: int| 0 <= j < i ==> crate::version::is_lower_hex_char(#[trigger] h@[j]),
        decreases n - i,
    {
        let c = h.get_char(i);
        let u = c as u32;
        if !((48 <= u && u <= 57) || (97 <= u && u <= 102)) {
            proof {
                assert(!crate::version::is_lower_hex_char(h@[i as int]));
                if crate::version::is_full_hash(e@.commit_hash) {
                    assert(crate::version::is_lower_hex_char(e@.commit_hash[i as int]));
                    assert(false);
                }
            }
            return false;
        }
        i += 1;
    }
    true
}

impl CommitGraph {
    /// Builds the commit graph from parsed log records.
    ///
    /// Succeeds exactly when every record is well formed, every parent
    /// hash resolves to a record, exactly one record is parentless and
    /// exactly one carries the HEAD marker.  The parent edges point at
    /// the first record carrying each parent hash.
    ///
    /// Acyclicity is not checked here: parent hashes that close a cycle
    /// are accepted by the builder and rejected by the first traversal
    /// that needs a dependency order (`topo_order`, and through it the
    /// assignment engine), which reports `CycleDetected` with a witness.
    #[verifier::loop_isolation(false)]
    pub fn build(logs: Logs) -> (r: Result<CommitGraph, CcError>)
        ensures
            match r {
                Ok(g) => {
                    &&& g@.wf()
                    &&& g@.nodes == logs@
                    &&& g@.nodes.len() == logs@.len()
                    &&& forall|i: int, j: int|
                        0 <= i < logs@.len() && 0 <= j < logs@[i].parent_hashes.len()
                            ==> spec_find_hash(logs@, logs@[i].parent_hashes[j]) == Some(
                            (#[trigger] g@.parents[i][j]) as int,
                        )
                    &&& logs@[g@.head].has_head_marker()
                    &&& forall|i: int|
                        0 <= i < logs@.len() && i != g@.head ==> !(
                        #[trigger] logs@[i]).has_head_marker()
                },
                Err(CcError::MalformedRecord { index }) => {
                    &&& 0 <= (index as int) < logs@.len()
                    &&& !logs@[index as int].wf()
                },
                Err(CcError::UnresolvedParent { child }) => {
                    &&& 0 <= (child as int) < logs@.len()
                    &&& exists|j: int|
                        0 <= j < logs@[child as int].parent_hashes.len() && spec_find_hash(
                            logs@,
                            logs@[child as int].parent_hashes[j],
                        ) is None
                },
                Err(CcError::NoTail) => forall|i: int|
                    0 <= i < logs@.len() ==> (#[trigger] logs@[i]).parent_hashes.len() > 0,
                Err(CcError::MultipleTails) => exists|i: int, j: int|
                    0 <= i < j < logs@.len() && logs@[i].parent_hashes.len() == 0
                        && logs@[j].parent_hashes.len() == 0,
                Err(CcError::NoHead) => forall|i: int|
                    0 <= i < logs@.len() ==> !(#[trigger] logs@[i]).has_head_marker(),
                Err(CcError::MultipleHeads) => exists|i: int, j: int|
                    0 <= i < j < logs@.len() && logs@[i].has_head_marker()
                        && logs@[j].has_head_marker(),
                Err(_) => false,
            },
    {
        let ghost s = logs@;
        let nodes = logs.entries;
        proof {
            assert(s =~= Seq::new(nodes@.len(), |i: int| nodes@[i]@));
        }
        let n = nodes.len();

        // every record must be well formed
        let mut i: usize = 0;
        while i < n
            invariant
                i <= n,
                n == nodes.len(),
                s == Seq::new(nodes@.len(), |k: int| nodes@[k]@),
                forall|j: int| 0 <= j < i ==> (#[trigger] s[j]).wf(),
            decreases n - i,
        {
            if !record_wf(&nodes[i]) {
                proof {
                    assert(s[i as int] == nodes@[i as int]@);
                }
                return Err(CcError::MalformedRecord { index: i });
            }
            i += 1;
        }

        // resolve every parent hash to a node index
        let mut parents: Vec<Vec<usize>> = Vec::new();
        let mut i: usize = 0;
        while i < n
            invariant
                i <= n,
                n == nodes.len(),
                s == Seq::new(nodes@.len(), |k: int| nodes@[k]@),
                parents@.len() == i,
                forall|k: int|
                    0 <= k < i ==> (#[trigger] parents@[k]@).len() == s[k].parent_hashes.len(),
                forall|k: int, j: int|
                    0 <= k < i && 0 <= j < parents@[k]@.len() ==> spec_find_hash(
                        s,
                        s[k].parent_hashes[j],
                    ) == Some((#[trigger] parents@[k]@[j]) as int),
            decreases n - i,
        {
            let mut row: Vec<usize> = Vec::new();
            let mut j: usize = 0;
            let m = nodes[i].parent_hashes.len();
            while j < m
                invariant
                    j <= m,
                    i < n,
                    n == nodes.len(),
                    m == nodes@[i as int].parent_hashes.len(),
                    s == Seq::new(nodes@.len(), |k: int| nodes@[k]@),
                    row@.len() == j,
                    forall|jj: int|
                        0 <= jj < j ==> spec_find_hash(s, s[i as int].parent_hashes[jj]) == Some(
                            (#[trigger] row@[jj]) as int,
                        ),
                decreases m - j,
            {
                proof {
                    assert(s[i as int].parent_hashes[j as int] == nodes@[i as int].parent_hashes@[
                        j as int]@);
                }
                match find_hash(&nodes, nodes[i].parent_hashes[j].as_str()) {
                    Some(p) => {
                        row.push(p);
                    },
                    None => {
                        proof {
                            assert(spec_find_hash(s, s[i as int].parent_hashes[j as int]) is None);
                            assert(exists|jj: int|
                                0 <= jj < s[i as int].parent_hashes.len() && spec_find_hash(
                                    s,
                                    s[i as int].parent_hashes[jj],
                                ) is None);
                        }
                        return Err(CcError::UnresolvedParent { child: i });
                    },
                }
                j += 1;
            }
            parents.push(row);
            i += 1;
        }

        // the unique parentless record is the tail
        let mut tail_found: Option<usize> = None;
        let mut i: usize = 0;
        while i < n
            invariant
                i <= n,
                n == nodes.len(),
                s == Seq::new(nodes@.len(), |k: int| nodes@[k]@),
                match tail_found {
                    None => forall|j: int| 0 <= j < i ==> (#[trigger] s[j]).parent_hashes.len() > 0,
                    Some(t) => {
                        &&& (t as int) < i
                        &&& s[t as int].parent_hashes.len() == 0
                        &&& forall|j: int|
                            0 <= j < i && j != t ==> (#[trigger] s[j]).parent_hashes.len() > 0
                    },
                },
            decreases n - i,
        {
            if nodes[i].parent_hashes.len() == 0 {
                match tail_found {
                    Some(t) => {
                        proof {
                            assert(s[t as int].parent_hashes.len() == 0 && s[i as int]
                                .parent_hashes.len() == 0 && (t as int) < (i as int));
                            assert(exists|a: int, b: int|
                                0 <= a < b < s.len() && s[a].parent_hashes.len() == 0
                                    && s[b].parent_hashes.len() == 0);
                        }
                        return Err(CcError::MultipleTails);
                    },
                    None => {
                        tail_found = Some(i);
                    },
                }
            }
            i += 1;
        }
        let tail = match tail_found {
            Some(t) => t,
            None => {
                return Err(CcError::NoTail);
            },
        };

        // the unique record with the HEAD marker is the head
        let mut head_found: Option<usize> = None;
        let mut i: usize = 0;
        while i < n
            invariant
                i <= n,
                n == nodes.len(),
                s == Seq::new(nodes@.len(), |k: int| nodes@[k]@),
                match head_found {
                    None => forall|j: int| 0 <= j < i ==> !(#[trigger] s[j]).has_head_marker(),
                    Some(h) => {
                        &&& (h as int) < i
                        &&& s[h as int].has_head_marker()
                        &&& forall|j: int|
                            0 <= j < i && j != h ==> !(#[trigger] s[j]).has_head_marker()
                    },
                },
            decreases n - i,
        {
            if nodes[i].is_current_head() {
                match head_found {
                    Some(h) => {
                        proof {
                            assert(s[h as int].has_head_marker() && s[i as int].has_head_marker()
                                && (h as int) < (i as int));
                            assert(exists|a: int, b: int|
                                0 <= a < b < s.len() && s[a].has_head_marker()
                                    && s[b].has_head_marker());
                        }
                        return Err(CcError::MultipleHeads);
                    },
                    None => {
                        head_found = Some(i);
                    },
                }
            }
            i += 1;
        }
        let head = match head_found {
            Some(h) => h,
            None => {
                return Err(CcError::NoHead);
            },
        };

        let g = CommitGraph { nodes, parents, head, tail };
        proof {
            assert(g@.nodes =~= s);
            assert forall|i: int, j: int|
                0 <= i < g@.nodes.len() && 0 <= j < g@.parents[i].len() implies (
            #[trigger] g@.parents[i][j]) < g@.nodes.len() && g@.nodes[g@.parents[i][j] as int]
                .commit_hash == g@.nodes[i].parent_hashes[j] by {
                lemma_find_hash_some(s, s[i].parent_hashes[j]);
            }
            assert(g@.wf());
        }
        Ok(g)
    }
}

/// Whether the parent edges of a graph close a cycle, witnessed by a
/// nonempty set of nodes each of which has a parent inside the set: in a
/// finite graph such a set exists exactly when a directed cycle does, and
/// it is what stops a dependency order from covering every node.
pub open spec fn has_cycle(g: GraphV) -> bool {
    exists|stuck: Seq<bool>|
        {
            &&& #[trigger] stuck.len() == g.nodes.len()
            &&& exists|i: int| 0 <= i < stuck.len() && !stuck[i]
            &&& forall|i: int|
                0 <= i < stuck.len() && !(#[trigger] stuck[i]) ==> exists|j: int|
                    0 <= j < g.parents[i].len() && !stuck[(#[trigger] g.parents[i][j]) as int]
        }
}

/// A valid dependency order of a graph: `order` lists every node once,
/// `pos` is its inverse, and every node's parents sit earlier in the
/// order than the node itself.
pub open spec fn topo_ok(g: GraphV, order: Seq<usize>, pos: Seq<usize>) -> bool {
    &&& order.len() == g.nodes.len()
    &&& pos.len() == g.nodes.len()
    &&& forall|k: int| 0 <= k < order.len() ==> (#[trigger] order[k]) < g.nodes.len()
    &&& forall|k1: int, k2: int| 0 <= k1 < k2 < order.len() ==> order[k1] != order[k2]
    &&& forall|i: int| 0 <= i < pos.len() ==> (#[trigger] pos[i]) < order.len()
    &&& forall|i: int| 0 <= i < pos.len() ==> order[#[trigger] pos[i] as int] == i
    &&& forall|i: int, j: int|
        0 <= i < g.nodes.len() && 0 <= j < g.parents[i].len() ==> pos[#[trigger] g.parents[i][j] as int]
            < pos[i]
}

/// An ancestor closure of a graph: `anc[i][x]` holds exactly when `x` is
/// a parent of `i` or an ancestor of a parent of `i`.
pub open spec fn anc_ok(g: GraphV, anc: Seq<Seq<bool>>) -> bool {
    &&& anc.len() == g.nodes.len()
    &&& forall|i: int| 0 <= i < anc.len() ==> (#[trigger] anc[i]).len() == g.nodes.len()
    &&& forall|i: int, x: int|
        0 <= i < g.nodes.len() && 0 <= x < g.nodes.len() ==> ((#[trigger] anc[i][x]) <==> exists|j: int|
            0 <= j < g.parents[i].len() && ((#[trigger] g.parents[i][j]) as int == x
                || anc[g.parents[i][j] as int][x]))
}

impl CommitGraph {
    /// The number of commits in the graph.
    pub fn node_count(&self) -> (r: usize)
        ensures
            r == self@.nodes.len(),
    {
        self.nodes.len()
    }

    /// The commit at HEAD.
    pub fn head(&self) -> (r: &LogEntry)
        requires
            self@.wf(),
        ensures
            r@ == self@.nodes[self@.head],
    {
        &self.nodes[self.head]
    }

    /// The index of HEAD.
    pub fn headidx(&self) -> (r: usize)
        ensures
            r as int == self@.head,
    {
        self.head
    }

    /// The root (tail) commit.
    pub fn tail(&self) -> (r: &LogEntry)
        requires
            self@.wf(),
        ensures
            r@ == self@.nodes[self@.tail],
    {
        &self.nodes[self.tail]
    }

    /// The index of the root (tail) commit.
    pub fn tailidx(&self) -> (r: usize)
        ensures
            r as int == self@.tail,
    {
        self.tail
    }

    /// The commit at a given index.
    pub fn get(&self, idx: usize) -> (r: Option<&LogEntry>)
        ensures
            match r {
                Some(e) => idx < self@.nodes.len() && e@ == self@.nodes[idx as int],
                None => idx >= self@.nodes.len(),
            },
    {
        if idx < self.nodes.len() {
            Some(&self.nodes[idx])
        } else {
            None
        }
    }

    /// The indices of a node's parents.
    pub fn parents_of(&self, idx: usize) -> (r: Vec<usize>)
        requires
            self@.wf(),
            idx < self@.nodes.len(),
        ensures
            r@ == self@.parents[idx as int],
    {
        let row = crate::text::copy_vec(&self.parents[idx]);
        proof {
            assert(row@ =~= self@.parents[idx as int]);
        }
        row
    }

    /// The index of the first commit carrying a given hash.
    pub fn commitidx(&self, hash: &str) -> (r: Option<usize>)
        ensures
            match r {
                Some(i) => spec_find_hash(self@.nodes, hash@) == Some(i as int),
                None => spec_find_hash(self@.nodes, hash@) is None,
            },
    {
        find_hash(&self.nodes, hash)
    }

    /// A dependency order of the graph: every node's parents come before
    /// it.  Fails exactly when the parent edges close a cycle, witnessed
    /// by a nonempty set of nodes each of which has a parent in the set.
    #[verifier::loop_isolation(false)]
    #[verifier::rlimit(60)]
    pub fn topo_order(&self) -> (r: Result<(Vec<usize>, Vec<usize>), CcError>)
        requires
            self@.wf(),
        ensures
            match r {
                Ok(op) => topo_ok(self@, op.0@, op.1@),
                Err(CcError::CycleDetected) => has_cycle(self@),
                Err(_) => false,
            },
    {
        let n = self.nodes.len();
        let mut placed: Vec<bool> = Vec::new();
        let mut k: usize = 0;
        while k < n
            invariant
                k <= n,
                placed@.len() == k,
                forall|i: int| 0 <= i < k ==> !(#[trigger] placed@[i]),
            decreases n - k,
        {
            placed.push(false);
            k += 1;
        }
        let mut pos: Vec<usize> = Vec::new();
        let mut k: usize = 0;
        while k < n
            invariant
                k <= n,
                pos@.len() == k,
            decreases n - k,
        {
            pos.push(0);
            k += 1;
        }
        let mut order: Vec<usize> = Vec::new();

        loop
            invariant
                placed@.len() == n,
                pos@.len() == n,
                order@.len() <= n,
                forall|i: int|
                    0 <= i < n ==> ((#[trigger] placed@[i]) <==> exists|k: int|
                        0 <= k < order@.len() && order@[k] == i),
                forall|k: int| 0 <= k < order@.len() ==> (#[trigger] order@[k]) < n,
                forall|i: int|
                    0 <= i < n && placed@[i] ==> (#[trigger] pos@[i]) < order@.len()
                        && order@[pos@[i] as int] == i,
                forall|i: int, j: int|
                    0 <= i < n && 0 <= j < self@.parents[i].len() && placed@[i] ==> placed@[(
                    #[trigger] self@.parents[i][j]) as int] && pos@[self@.parents[i][j] as int]
                        < pos@[i],
                forall|k1: int, k2: int| 0 <= k1 < k2 < order@.len() ==> order@[k1] != order@[k2],
            decreases n - order@.len(),
        {
            let ghost prev = order@.len();
            let mut progress = false;
            let mut i: usize = 0;
            while i < n
                invariant
                    placed@.len() == n,
                    pos@.len() == n,
                    order@.len() <= n,
                    forall|ii: int|
                        0 <= ii < n ==> ((#[trigger] placed@[ii]) <==> exists|k: int|
                            0 <= k < order@.len() && order@[k] == ii),
                    forall|k: int| 0 <= k < order@.len() ==> (#[trigger] order@[k]) < n,
                    forall|ii: int|
                        0 <= ii < n && placed@[ii] ==> (#[trigger] pos@[ii]) < order@.len()
                            && order@[pos@[ii] as int] == ii,
                    forall|ii: int, j: int|
                        0 <= ii < n && 0 <= j < self@.parents[ii].len() && placed@[ii] ==> placed@[(
                        #[trigger] self@.parents[ii][j]) as int] && pos@[self@.parents[ii][j] as int]
                            < pos@[ii],
                    forall|k1: int, k2: int|
                        0 <= k1 < k2 < order@.len() ==> order@[k1] != order@[k2],
                    order@.len() >= prev,
                    progress ==> order@.len() > prev,
                    !progress ==> forall|ii: int|
                        0 <= ii < i && !placed@[ii] ==> exists|j: int|
                            0 <= j < self@.parents[ii].len() && !placed@[(
                            #[trigger] self@.parents[ii][j]) as int],
                decreases n - i,
            {
                if !placed[i] {
                    // check whether every parent of i is already placed
                    let row = &self.parents[i];
                    let mut all_in = true;
                    let mut j: usize = 0;
                    while j < row.len()
                        invariant
                            j <= row.len(),
                            row@ == self@.parents[i as int],
                            all_in <==> forall|jj: int|
                                0 <= jj < j ==> placed@[(#[trigger] row@[jj]) as int],
                        decreases row.len() - j,
                    {
                        if !placed[row[j]] {
                            all_in = false;
                            proof {
                                assert(!placed@[row@[j as int] as int]);
                            }
                            j = row.len();
                        } else {
                            j += 1;
                        }
                    }
                    if all_in {
                        let ghost old_order = order@;
                        proof {
                            if order@.len() >= n {
                                lemma_all_values_hit(order@, n as int, i as int);
                                let k = choose|k: int|
                                    0 <= k < order@.len() && (order@[k] as int) == i as int;
                                assert(order@[k] == i);
                                assert(placed@[i as int]);
                                assert(false);
                            }
                        }
                        pos[i] = order.len();
                        order.push(i);
                        placed[i] = true;
                        progress = true;
                        proof {
                            assert forall|ii: int|
                                0 <= ii < n implies ((#[trigger] placed@[ii]) <==> exists|k: int|
                                0 <= k < order@.len() && order@[k] == ii) by {
                                if ii == i {
                                    assert(order@[order@.len() - 1] == ii);
                                } else {
                                    if placed@[ii] {
                                        assert(exists|k: int|
                                            0 <= k < old_order.len() && old_order[k] == ii);
                                        let k = choose|k: int|
                                            0 <= k < old_order.len() && old_order[k] == ii;
                                        assert(order@[k] == ii);
                                    } else {
                                        if exists|k: int|
                                            0 <= k < order@.len() && order@[k] == ii {
                                            let k = choose|k: int|
                                                0 <= k < order@.len() && order@[k] == ii;
                                            assert(k < old_order.len());
                                            assert(old_order[k] == ii);
                                        }
                                    }
                                }
                            }
                        }
                    } else {
                        proof {
                            assert(exists|jj: int|
                                0 <= jj < self@.parents[i as int].len() && !placed@[(
                                #[trigger] self@.parents[i as int][jj]) as int]);
                        }
                    }
                }
                i += 1;
            }
            if !progress {
                if order.len() == n {
                    break;
                }
                proof {
                    if forall|ii: int| 0 <= ii < n ==> #[trigger] placed@[ii] {
                        let p = Seq::new(n as nat, |ii: int| pos@[ii]);
                        assert forall|k: int| 0 <= k < p.len() implies (#[trigger] p[k])
                            < order@.len() by {
                            assert(placed@[k]);
                        }
                        assert forall|k1: int, k2: int|
                            0 <= k1 < k2 < p.len() implies p[k1] != p[k2] by {
                            assert(placed@[k1] && placed@[k2]);
                            assert(order@[pos@[k1] as int] == k1);
                            assert(order@[pos@[k2] as int] == k2);
                        }
                        lemma_distinct_bounded(p, order@.len() as int);
                        assert(false);
                    }
                    assert(exists|ii: int| 0 <= ii < placed@.len() && !placed@[ii]);
                }
                return Err(CcError::CycleDetected);
            }
            if order.len() == n {
                break;
            }
        }
        proof {
            assert forall|k1: int, k2: int|
                0 <= k1 < k2 < order@.len() implies order@[k1] != order@[k2] by {
                if order@[k1] == order@[k2] {
                    let ii = order@[k1] as int;
                    assert(placed@[ii]);
                    assert(order@[pos@[ii] as int] == ii);
                }
            }
            assert forall|i: int| 0 <= i < n implies #[trigger] placed@[i] by {
                if !placed@[i] {
                    assert(forall|k: int| 0 <= k < order@.len() ==> order@[k] != i);
                    lemma_all_values_hit(order@, n as int, i);
                    let k = choose|k: int| 0 <= k < order@.len() && (order@[k] as int) == i;
                    assert(order@[k] == i);
                    assert(false);
                }
            }
        }
        Ok((order, pos))
    }
}

/// A sequence of distinct values below `n` has at most `n` elements.
proof fn lemma_distinct_bounded(s: Seq<usize>, n: int)
    requires
        n >= 0,
        forall|k: int| 0 <= k < s.len() ==> (#[trigger] s[k]) < n,
        forall|k1: int, k2: int| 0 <= k1 < k2 < s.len() ==> s[k1] != s[k2],
    ensures
        s.len() <= n,
{
    broadcast use vstd::set::group_set_axioms;

    let t = Seq::new(s.len(), |k: int| s[k] as int);
    assert(t.no_duplicates());
    t.unique_seq_to_set();
    assert forall|x: int| t.to_set().contains(x) implies vstd::set_lib::set_int_range(
        0,
        n,
    ).contains(x) by {
        let k = choose|k: int| 0 <= k < t.len() && t[k] == x;
        assert(s[k] < n);
    }
    vstd::set_lib::lemma_int_range(0, n);
    vstd::set_lib::lemma_len_subset(t.to_set(), vstd::set_lib::set_int_range(0, n));
}

/// A sequence of `n` distinct values below `n` hits every value below
/// `n`.
proof fn lemma_all_values_hit(order: Seq<usize>, n: int, missing: int)
    requires
        order.len() >= n,
        0 <= missing < n,
        forall|k: int| 0 <= k < order.len() ==> (#[trigger] order[k]) < n,
        forall|k1: int, k2: int| 0 <= k1 < k2 < order.len() ==> order[k1] != order[k2],
    ensures
        exists|k: int| 0 <= k < order.len() && (order[k] as int) == missing,
{
    lemma_distinct_bounded(order, n);
    if forall|k: int| 0 <= k < order.len() ==> (#[trigger] order[k]) as int != missing {
        let t = Seq::new(
            order.len(),
            |k: int| if order[k] as int > missing {
                (order[k] - 1) as usize
            } else {
                order[k]
            },
        );
        assert forall|k: int| 0 <= k < t.len() implies (#[trigger] t[k]) < n - 1 by {
            assert((order[k] as int) != missing && (order[k] as int) < n);
        }
        assert forall|k1: int, k2: int| 0 <= k1 < k2 < t.len() implies t[k1] != t[k2] by {
            if t[k1] == t[k2] {
                assert(order[k1] != order[k2]);
                assert((order[k1] as int) != missing && (order[k2] as int) != missing);
            }
        }
        lemma_distinct_bounded(t, n - 1);
        assert(false);
    }
}


impl CommitGraph {
    /// The ancestor closure of the graph: for each node, a flag vector
    /// marking exactly its parents and its parents' ancestors.  Every
    /// ancestor sits strictly earlier in the dependency order than the
    /// node itself.
    #[verifier::loop_isolation(false)]
    #[verifier::rlimit(60)]
    pub fn ancestor_flags(&self, order: &Vec<usize>, pos: &Vec<usize>) -> (anc: Vec<Vec<bool>>)
        requires
            self@.wf(),
            topo_ok(self@, order@, pos@),
        ensures
            anc_ok(self@, Seq::new(anc@.len(), |i: int| anc@[i]@)),
            forall|i: int, x: int|
                0 <= i < self@.nodes.len() && 0 <= x < self@.nodes.len() && anc@[i]@[x]
                    ==> pos@[x] < pos@[i],
    {
        let n = self.nodes.len();
        // start from all-empty flag rows, filled in dependency order
        let mut anc: Vec<Vec<bool>> = Vec::new();
        let mut k: usize = 0;
        while k < n
            invariant
                k <= n,
                anc@.len() == k,
                forall|i: int| 0 <= i < k ==> (#[trigger] anc@[i]@).len() == n,
                forall|i: int, x: int| 0 <= i < k && 0 <= x < n ==> !(#[trigger] anc@[i]@[x]),
            decreases n - k,
        {
            let mut row: Vec<bool> = Vec::new();
            let mut x: usize = 0;
            while x < n
                invariant
                    x <= n,
                    row@.len() == x,
                    forall|y: int| 0 <= y < x ==> !(#[trigger] row@[y]),
                decreases n - x,
            {
                row.push(false);
                x += 1;
            }
            anc.push(row);
            k += 1;
        }

        // the set of nodes whose rows are final, in dependency order
        let ghost mut done: Set<int> = Set::empty();
        let mut k: usize = 0;
        while k < n
            invariant
                k <= n,
                anc@.len() == n,
                done =~= Set::new(|i: int| exists|kk: int| 0 <= kk < k && order@[kk] as int == i),
                forall|i: int| 0 <= i < n ==> (#[trigger] anc@[i]@).len() == n,
                forall|i: int| done.contains(i) ==> 0 <= i < n && pos@[i] < k,
                forall|i: int| 0 <= i < n && pos@[i] < k ==> done.contains(i),
                forall|i: int, x: int|
                    done.contains(i) && 0 <= x < n ==> ((#[trigger] anc@[i]@[x]) <==> exists|j: int|
                        0 <= j < self@.parents[i].len() && ((#[trigger] self@.parents[i][j]) as int
                            == x || anc@[self@.parents[i][j] as int]@[x])),
                forall|i: int, x: int|
                    !done.contains(i) && 0 <= i < n && 0 <= x < n ==> !(#[trigger] anc@[i]@[x]),
                forall|i: int, x: int|
                    done.contains(i) && 0 <= x < n && anc@[i]@[x] ==> pos@[x] < pos@[i],
            decreases n - k,
        {
            let i = order[k];
            proof {
                assert(pos@[i as int] == k) by {
                    assert(order@[pos@[i as int] as int] == i);
                    assert(order@[k as int] == i);
                }
                assert(!done.contains(i as int));
                assert forall|jj: int|
                    0 <= jj < self@.parents[i as int].len() implies pos@[(
                #[trigger] self@.parents[i as int][jj]) as int] < pos@[i as int] by {}
                assert forall|jj: int|
                    0 <= jj < self@.parents[i as int].len() implies done.contains((
                #[trigger] self@.parents[i as int][jj]) as int) by {
                    assert(pos@[self@.parents[i as int][jj] as int] < k);
                }
            }
            let mut row: Vec<bool> = Vec::new();
            let mut x: usize = 0;
            while x < n
                invariant
                    x <= n,
                    row@.len() == x,
                    forall|y: int| 0 <= y < x ==> !(#[trigger] row@[y]),
                decreases n - x,
            {
                row.push(false);
                x += 1;
            }
            // union in each parent and that parent's ancestors
            let prow = &self.parents[i];
            let mut j: usize = 0;
            while j < prow.len()
                invariant
                    j <= prow.len(),
                    i < n,
                    prow@ == self@.parents[i as int],
                    row@.len() == n,
                    anc@.len() == n,
                    forall|ii: int| 0 <= ii < n ==> (#[trigger] anc@[ii]@).len() == n,
                    forall|jj: int|
                        0 <= jj < prow@.len() ==> pos@[(#[trigger] prow@[jj]) as int] < pos@[i as int],
                    forall|jj: int|
                        0 <= jj < prow@.len() ==> done.contains((#[trigger] prow@[jj]) as int),
                    forall|x: int|
                        0 <= x < n ==> ((#[trigger] row@[x]) <==> exists|jj: int|
                            0 <= jj < j && ((#[trigger] prow@[jj]) as int == x || anc@[prow@[jj] as int]@[x])),
                    forall|x: int| 0 <= x < n && row@[x] ==> pos@[x] < pos@[i as int],
                decreases prow.len() - j,
            {
                let pnode = prow[j];
                let ghost row0 = row@;
                row[pnode] = true;
                proof {
                    assert forall|x: int|
                        0 <= x < n implies ((#[trigger] row@[x]) <==> exists|jj: int|
                        0 <= jj < j && ((#[trigger] prow@[jj]) as int == x
                            || anc@[prow@[jj] as int]@[x]) || (prow@[j as int] as int == x)) by {
                        if x == pnode as int {
                            assert(row@[x]);
                        } else {
                            assert(row@[x] == row0[x]);
                        }
                    }
                }
                let prow_anc = &anc[pnode];
                let mut x: usize = 0;
                while x < n
                    invariant
                        x <= n,
                        j < prow@.len(),
                        i < n,
                        pnode == prow@[j as int],
                        (pnode as int) < n,
                        prow_anc@ == anc@[pnode as int]@,
                        row@.len() == n,
                        anc@.len() == n,
                        forall|ii: int| 0 <= ii < n ==> (#[trigger] anc@[ii]@).len() == n,
                        forall|y: int|
                            0 <= y < x ==> ((#[trigger] row@[y]) <==> (exists|jj: int|
                                0 <= jj < j && ((#[trigger] prow@[jj]) as int == y
                                    || anc@[prow@[jj] as int]@[y])) || (prow@[j as int] as int == y)
                                || anc@[pnode as int]@[y]),
                        forall|y: int|
                            x <= y < n ==> ((#[trigger] row@[y]) <==> (exists|jj: int|
                                0 <= jj < j && ((#[trigger] prow@[jj]) as int == y
                                    || anc@[prow@[jj] as int]@[y])) || (prow@[j as int] as int
                                == y)),
                        forall|y: int| 0 <= y < n && row@[y] ==> pos@[y] < pos@[i as int],
                    decreases n - x,
                {
                    if prow_anc[x] {
                        row[x] = true;
                        proof {
                            assert(anc@[pnode as int]@[x as int]);
                            assert(done.contains(pnode as int));
                            assert(pos@[x as int] < pos@[pnode as int]);
                        }
                    }
                    x += 1;
                }
                proof {
                    assert forall|y: int|
                        0 <= y < n implies ((#[trigger] row@[y]) <==> exists|jj: int|
                        0 <= jj < j + 1 && ((#[trigger] prow@[jj]) as int == y
                            || anc@[prow@[jj] as int]@[y])) by {
                        if row@[y] {
                            if (exists|jj: int|
                                0 <= jj < j && ((prow@[jj]) as int == y || anc@[prow@[jj] as int]@[y])) {
                                let jj = choose|jj: int|
                                    0 <= jj < j && ((prow@[jj]) as int == y
                                        || anc@[prow@[jj] as int]@[y]);
                                assert(0 <= jj < j + 1 && ((prow@[jj]) as int == y
                                    || anc@[prow@[jj] as int]@[y]));
                            } else {
                                assert((prow@[j as int] as int == y) || anc@[pnode as int]@[y]);
                                assert(0 <= (j as int) < j + 1 && ((prow@[j as int]) as int == y
                                    || anc@[prow@[j as int] as int]@[y]));
                            }
                        }
                    }
                }
                j += 1;
            }
            let ghost anc0 = anc@;
            anc[i] = row;
            proof {
                done = done.insert(i as int);
                assert forall|ii: int, x: int|
                    done.contains(ii) && 0 <= x < n implies ((#[trigger] anc@[ii]@[x])
                    <==> exists|j: int|
                        0 <= j < self@.parents[ii].len() && ((#[trigger] self@.parents[ii][j]) as int
                            == x || anc@[self@.parents[ii][j] as int]@[x])) by {
                    if ii == i as int {
                        assert(anc@[ii]@ == row@);
                        assert forall|j: int|
                            0 <= j < self@.parents[ii].len() implies anc@[(
                        #[trigger] self@.parents[ii][j]) as int]@ == anc0[self@.parents[ii][j] as int]@ by {
                            assert(self@.parents[ii][j] as int != i as int) by {
                                assert(pos@[self@.parents[ii][j] as int] < pos@[ii]);
                            }
                        }
                    } else {
                        assert(anc@[ii]@ == anc0[ii]@);
                        assert forall|j: int|
                            0 <= j < self@.parents[ii].len() implies anc@[(
                        #[trigger] self@.parents[ii][j]) as int]@ == anc0[self@.parents[ii][j] as int]@ by {
                            if self@.parents[ii][j] as int == i as int {
                                assert(done.remove(i as int).contains(ii));
                                assert(pos@[i as int] < pos@[ii]);
                                assert(pos@[ii] < k);
                                assert(pos@[i as int] == k);
                            }
                        }
                    }
                }
                assert(done =~= Set::new(
                    |ii: int| exists|kk: int| 0 <= kk < k + 1 && order@[kk] as int == ii,
                )) by {
                    assert(order@[k as int] as int == i as int);
                    assert forall|ii: int|
                        done.contains(ii) implies exists|kk: int|
                        0 <= kk < k + 1 && order@[kk] as int == ii by {
                        if ii != i as int {
                            assert(exists|kk: int| 0 <= kk < k && order@[kk] as int == ii);
                        }
                    }
                }
            }
            k += 1;
        }
        proof {
            assert forall|i: int| 0 <= i < n implies done.contains(i) by {
                assert(pos@[i] < n);
                assert(order@[pos@[i] as int] == i);
            }
        }
        anc
    }

    /// The ancestors of one node, as ascending indices.
    pub fn ancestors_list(&self, anc: &Vec<Vec<bool>>, i: usize) -> (r: Vec<usize>)
        requires
            i < anc@.len(),
        ensures
            r@ == asc_indices(anc@[i as int]@),
    {
        let row = &anc[i];
        let mut out: Vec<usize> = Vec::new();
        let mut x: usize = 0;
        while x < row.len()
            invariant
                x <= row.len(),
                row@ == anc@[i as int]@,
                out@ =~= asc_upto(row@, x as int),
            decreases row.len() - x,
        {
            if row[x] {
                out.push(x);
            }
            x += 1;
        }
        proof {
            assert(out@ =~= asc_indices(anc@[i as int]@));
        }
        out
    }
}


/// The hash a speculative (peek) commit carries: forty zero digits.
pub open spec fn peek_hash_v() -> Seq<char> {
    Seq::new(40, |i: int| '0')
}

/// Builds the forty-zero hash of a speculative commit.
#[verifier::loop_isolation(false)]
pub fn make_peek_hash() -> (r: String)
    ensures
        r@ == peek_hash_v(),
        crate::version::is_full_hash(r@),
{
    let mut s = String::new();
    let mut i: usize = 0;
    proof {
        reveal_strlit("0");
    }
    while i < 40
        invariant
            i <= 40,
            s@ =~= Seq::new(i as nat, |k: int| '0'),
        decreases 40 - i,
    {
        s.append("0");
        proof {
            assert(s@ =~= Seq::new((i + 1) as nat, |k: int| '0'));
        }
        i += 1;
    }
    proof {
        assert(s@ =~= peek_hash_v());
        assert forall|k: int| 0 <= k < s@.len() implies crate::version::is_lower_hex_char(
            #[trigger] s@[k],
        ) by {
            assert(s@[k] == '0');
            vstd::utf8::char_u32_cast('0', '0' as u32);
        }
    }
    s
}

/// The view of the record a speculative commit adds on top of a graph's
/// HEAD: a zero hash, the HEAD's branch, the given subject and timestamp,
/// and the HEAD as its one parent.
pub open spec fn peek_entry_v(g: GraphV, subject: crate::logs::SubjectV, ts: u64) -> LogEntryV {
    LogEntryV {
        name: "peek-next-commit"@,
        branch: g.nodes[g.head].branch,
        commit_hash: peek_hash_v(),
        commit_epoch: ts,
        parent_hashes: seq![g.nodes[g.head].commit_hash],
        decorations: seq![
            crate::logs::DecorationV::HeadIndicator(g.nodes[g.head].branch),
        ],
        subject: subject,
        footers: Seq::empty(),
    }
}

impl CommitGraph {
    /// The record a speculative (peek) commit would add on top of HEAD:
    /// a zero hash, the HEAD's branch, the given subject and timestamp,
    /// and the HEAD as its sole parent.
    pub fn peek_entry(&self, subject: &crate::logs::Subject, ts: u64) -> (r: LogEntry)
        requires
            self@.wf(),
            ts <= crate::time::MAX_EPOCH_SECS,
        ensures
            r@ == peek_entry_v(self@, subject@, ts),
            r@.wf(),
    {
        let branch = self.nodes[self.head].branch.clone();
        let entry = LogEntry {
            name: String::from_str("peek-next-commit"),
            branch: branch.clone(),
            commit_hash: make_peek_hash(),
            commit_epoch: ts,
            parent_hashes: {
                let mut v: Vec<String> = Vec::new();
                v.push(self.nodes[self.head].commit_hash.clone());
                v
            },
            decorations: {
                let mut v: Vec<crate::logs::Decoration> = Vec::new();
                v.push(crate::logs::Decoration::HeadIndicator(branch));
                v
            },
            subject: subject.dup(),
            footers: Vec::new(),
        };
        proof {
            assert(entry@ =~= peek_entry_v(self@, subject@, ts));
        }
        entry
    }

    /// A new graph with one speculative commit grafted onto HEAD: the new
    /// node carries the given subject and timestamp, has the old HEAD as
    /// its sole parent, and becomes the new HEAD.  The original graph is
    /// unchanged; calling this twice with the same subject and timestamp
    /// yields the same graph value.
    pub fn with_speculative_commit(&self, subject: &crate::logs::Subject, ts: u64) -> (r:
        CommitGraph)
        requires
            self@.wf(),
            ts <= crate::time::MAX_EPOCH_SECS,
            forall|i: int|
                0 <= i < self@.nodes.len() ==> (#[trigger] self@.nodes[i]).commit_hash
                    != peek_hash_v(),
        ensures
            r@.wf(),
            r@.nodes == self@.nodes.push(peek_entry_v(self@, subject@, ts)),
            r@.parents == self@.parents.push(seq![self.head]),
            r@.head == self@.nodes.len(),
            r@.tail == self@.tail,
    {
        let entry = self.peek_entry(subject, ts);
        let mut nodes: Vec<LogEntry> = Vec::new();
        let mut i: usize = 0;
        while i < self.nodes.len()
            invariant
                i <= self.nodes.len(),
                nodes@.len() == i,
                forall|k: int| 0 <= k < i ==> (#[trigger] nodes@[k])@ == self@.nodes[k],
            decreases self.nodes.len() - i,
        {
            nodes.push(self.nodes[i].dup());
            i += 1;
        }
        let mut parents: Vec<Vec<usize>> = Vec::new();
        let mut i: usize = 0;
        while i < self.parents.len()
            invariant
                i <= self.parents.len(),
                parents@.len() == i,
                forall|k: int| 0 <= k < i ==> (#[trigger] parents@[k])@ == self@.parents[k],
            decreases self.parents.len() - i,
        {
            parents.push(crate::text::copy_vec(&self.parents[i]));
            i += 1;
        }
        let new_head = nodes.len();
        nodes.push(entry);
        let mut last_row: Vec<usize> = Vec::new();
        last_row.push(self.head);
        parents.push(last_row);
        let g = CommitGraph { nodes, parents, head: new_head, tail: self.tail };
        proof {
            assert(g@.nodes =~= self@.nodes.push(peek_entry_v(self@, subject@, ts)));
            assert(g@.parents =~= self@.parents.push(seq![self.head]));
            assert forall|i: int|
                0 <= i < g@.nodes.len() && i != g@.tail implies (#[trigger] g@.parents[i]).len()
                > 0 by {
                if i < self@.nodes.len() {
                    assert(g@.parents[i] == self@.parents[i]);
                }
            }
            assert(g@.wf());
        }
        g
    }

    /// The indices of a node's children: every node that lists it as a
    /// parent, in ascending order.
    #[verifier::loop_isolation(false)]
    pub fn children_of(&self, idx: usize) -> (r: Vec<usize>)
        requires
            self@.wf(),
            idx < self@.nodes.len(),
        ensures
            forall|k: int| 0 <= k < r@.len() ==> (#[trigger] r@[k]) < self@.nodes.len(),
            forall|k: int| 0 <= k < r@.len() ==> is_child_of(self@, (#[trigger] r@[k]) as int, idx),
            forall|c: int|
                0 <= c < self@.nodes.len() && is_child_of(self@, c, idx) ==> r@.contains(
                    c as usize,
                ),
            forall|k1: int, k2: int| 0 <= k1 < k2 < r@.len() ==> r@[k1] < r@[k2],
    {
        let n = self.nodes.len();
        let mut out: Vec<usize> = Vec::new();
        let mut c: usize = 0;
        while c < n
            invariant
                c <= n,
                forall|k: int| 0 <= k < out@.len() ==> (#[trigger] out@[k]) < c,
                forall|k: int|
                    0 <= k < out@.len() ==> is_child_of(self@, (#[trigger] out@[k]) as int, idx),
                forall|cc: int|
                    0 <= cc < c && is_child_of(self@, cc, idx) ==> out@.contains(cc as usize),
                forall|k1: int, k2: int| 0 <= k1 < k2 < out@.len() ==> out@[k1] < out@[k2],
            decreases n - c,
        {
            let row = &self.parents[c];
            let mut j: usize = 0;
            let mut hit = false;
            while j < row.len()
                invariant
                    j <= row.len(),
                    row@ == self@.parents[c as int],
                    hit ==> is_child_of(self@, c as int, idx),
                    !hit ==> forall|jj: int|
                        0 <= jj < j ==> (#[trigger] self@.parents[c as int][jj]) != idx,
                decreases row.len() - j,
            {
                if row[j] == idx {
                    hit = true;
                    proof {
                        assert(self@.parents[c as int][j as int] == idx);
                    }
                    j = row.len();
                } else {
                    j += 1;
                }
            }
            proof {
                if !hit {
                    assert(!is_child_of(self@, c as int, idx));
                }
            }
            if hit {
                let ghost out0 = out@;
                out.push(c);
                proof {
                    assert(out@[out@.len() - 1] == c);
                    assert forall|cc: int|
                        0 <= cc < c + 1 && is_child_of(self@, cc, idx) implies out@.contains(
                        cc as usize,
                    ) by {
                        if cc < c {
                            let kk = choose|kk: int|
                                0 <= kk < out0.len() && out0[kk] == cc as usize;
                            assert(out@[kk] == cc as usize);
                        } else {
                            assert(out@[out@.len() - 1] == cc as usize);
                        }
                    }
                }
            }
            c += 1;
        }
        out
    }
}


/// The ascending list of indices below `upto` whose flag is set.
pub open spec fn asc_upto(row: Seq<bool>, upto: int) -> Seq<usize>
    decreases upto,
{
    if upto <= 0 {
        Seq::empty()
    } else {
        if row[upto - 1] {
            asc_upto(row, upto - 1).push((upto - 1) as usize)
        } else {
            asc_upto(row, upto - 1)
        }
    }
}

/// The ascending list of all set flags.
pub open spec fn asc_indices(row: Seq<bool>) -> Seq<usize> {
    asc_upto(row, row.len() as int)
}

/// What membership in `asc_upto` means.
pub proof fn lemma_asc_upto_membership(row: Seq<bool>, upto: int)
    requires
        0 <= upto <= row.len(),
        row.len() <= usize::MAX,
    ensures
        forall|k: int|
            0 <= k < asc_upto(row, upto).len() ==> (#[trigger] asc_upto(row, upto)[k]) < upto
                && row[asc_upto(row, upto)[k] as int],
        forall|x: int| 0 <= x < upto && row[x] ==> asc_upto(row, upto).contains(x as usize),
    decreases upto,
{
    if upto > 0 {
        lemma_asc_upto_membership(row, upto - 1);
        assert forall|k: int|
            0 <= k < asc_upto(row, upto).len() implies (#[trigger] asc_upto(row, upto)[k]) < upto
                && row[asc_upto(row, upto)[k] as int] by {
            if row[upto - 1] {
                if k < asc_upto(row, upto - 1).len() {
                    assert(asc_upto(row, upto)[k] == asc_upto(row, upto - 1)[k]);
                } else {
                    assert(asc_upto(row, upto)[k] == (upto - 1) as usize);
                }
            } else {
                assert(asc_upto(row, upto) == asc_upto(row, upto - 1));
            }
        }
        assert forall|x: int|
            0 <= x < upto && row[x] implies asc_upto(row, upto).contains(x as usize) by {
            if x < upto - 1 {
                let k = choose|k: int|
                    0 <= k < asc_upto(row, upto - 1).len() && (#[trigger] asc_upto(
                        row,
                        upto - 1,
                    )[k]) == x as usize;
                assert(asc_upto(row, upto)[k] == x as usize);
            } else {
                assert(row[upto - 1]);
                assert(asc_upto(row, upto).last() == x as usize);
            }
        }
    }
}

/// Whether node `c` lists `idx` among its parents.
pub open spec fn is_child_of(g: GraphV, c: int, idx: usize) -> bool {
    exists|j: int| 0 <= j < g.parents[c].len() && g.parents[c][j] == idx
}


/// Which way a traversal walks the history: towards parents or towards
/// children.
#[derive(Clone, Copy, Debug, PartialEq, Eq, Structural)]
pub enum Directions {
    /// Towards the parents (back in history).
    Backward,
    /// Towards the children (forward in history).
    Forward,
}

/// Something that has a distinguished HEAD node.
pub trait Headed {
    /// The index of HEAD, mathematically.
    spec fn spec_head_index(&self) -> int;

    /// The index of HEAD.
    fn head_index(&self) -> (r: usize)
        ensures
            r as int == self.spec_head_index(),
    ;
}

impl Headed for CommitGraph {
    open spec fn spec_head_index(&self) -> int {
        self@.head
    }

    fn head_index(&self) -> (r: usize)
        ensures
            r as int == self.spec_head_index(),
    {
        self.head
    }
}

/// Something whose nodes have parent edges.
pub trait Parented {
    /// The parent indices of a node, mathematically.
    spec fn spec_parent_indices(&self, idx: int) -> Seq<usize>;

    /// Whether an index is a node at all.
    spec fn spec_has_node(&self, idx: usize) -> bool;

    /// The parent indices of a node.
    fn parent_indices(&self, idx: usize) -> (r: Vec<usize>)
        requires
            self.spec_has_node(idx),
        ensures
            r@ == self.spec_parent_indices(idx as int),
    ;
}

impl Parented for CommitGraph {
    open spec fn spec_parent_indices(&self, idx: int) -> Seq<usize> {
        self@.parents[idx]
    }

    open spec fn spec_has_node(&self, idx: usize) -> bool {
        self@.wf() && (idx as int) < self@.nodes.len()
    }

    fn parent_indices(&self, idx: usize) -> (r: Vec<usize>)
    {
        self.parents_of(idx)
    }
}

impl CommitGraph {
    /// The neighbours of a node in the chosen direction: its parents
    /// walking backward, its children walking forward.
    pub fn neighbors_in(&self, idx: usize, direction: Directions) -> (r: Vec<usize>)
        requires
            self@.wf(),
            idx < self@.nodes.len(),
        ensures
            direction is Backward ==> r@ == self@.parents[idx as int],
            direction is Forward ==> (forall|k: int|
                0 <= k < r@.len() ==> is_child_of(self@, (#[trigger] r@[k]) as int, idx)) && (
            forall|c: int|
                0 <= c < self@.nodes.len() && is_child_of(self@, c, idx) ==> r@.contains(
                    c as usize,
                )),
    {
        match direction {
            Directions::Backward => self.parents_of(idx),
            Directions::Forward => self.children_of(idx),
        }
    }
}

} // verus!
