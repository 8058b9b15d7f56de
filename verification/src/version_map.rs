//! The version-assignment engine: walks the commit graph in dependency
//! order, parents before children, and assigns every commit a version.
//!
//! The root (tail) commit receives the scheme's starting version.  A
//! commit with an explicit version tag receives that tag, and the engine
//! checks the tag against the maximum version already reached by the
//! commit's ancestors: a lower tag is a monotonicity violation, reported
//! for that commit while the walk goes on.  Any other commit derives its
//! version from the maximum over all its transitive ancestors' versions.
//! Comparisons across incompatible representations are reported as
//! errors for the commit concerned, never silently defaulted.
//!
//! Monotonicity along edges holds for version-advancing subjects over
//! sequential counters (`lemma_advancing_step_monotone`), and legal tags
//! never fall below their ancestors (`lemma_tag_override_legality`).  It
//! is not universal: by design, a non-advancing subject on a release
//! branch receives short-hash build metadata, and a commit entering a
//! prerelease channel receives that channel's tag, both of which can
//! sort below an ancestor's clean release.

use crate::error::CcError;
use crate::graph::anc_ok;
use crate::graph::asc_indices;
use crate::graph::asc_upto;
use crate::graph::lemma_asc_upto_membership;
use crate::graph::topo_ok;
use crate::graph::CommitGraph;
use crate::graph::GraphV;
use crate::logs::first_version_tag;
use crate::version::is_plain_seq;
use crate::version::is_plain_seq_below_top;
use crate::version::lemma_advancing_step_monotone;
use crate::version::lemma_plain_cmp_total;
use crate::version::lemma_plain_cmp_trans;
use crate::version::spec_default_version;
use crate::version::spec_next_version;
use crate::version::spec_version_cmp;
use crate::version::Version;
use crate::version::VersionV;
use crate::version_format::VersionFormat;
use crate::version_format::VersionFormatV;
use crate::Order;
use vstd::prelude::*;

verus! {

/// The versions assigned to the graph's nodes, by node index.  A `None`
/// entry marks a node whose version could not be computed (its error is
/// reported alongside).
#[derive(Debug)]
pub struct VersionMap {
    /// One slot per graph node.
    pub versions: Vec<Option<Version>>,
}

impl View for VersionMap {
    type V = Seq<Option<VersionV>>;

    open spec fn view(&self) -> Seq<Option<VersionV>> {
        Seq::new(
            self.versions@.len(),
            |i: int| match self.versions@[i] {
                Some(v) => Some(v@),
                None => None,
            },
        )
    }
}

impl VersionMap {
    /// The version assigned to a node, if one was.
    pub fn get(&self, idx: usize) -> (r: Option<&Version>)
        ensures
            match r {
                Some(v) => idx < self@.len() && self@[idx as int] == Some(v@),
                None => idx >= self@.len() || self@[idx as int] is None,
            },
    {
        if idx < self.versions.len() {
            match &self.versions[idx] {
                Some(v) => Some(v),
                None => None,
            }
        } else {
            None
        }
    }

    /// Replaces the version of a node.
    pub fn set(&mut self, idx: usize, version: Version)
        requires
            idx < old(self)@.len(),
        ensures
            final(self)@ == old(self)@.update(idx as int, Some(version@)),
    {
        self.versions[idx] = Some(version);
        proof {
            assert(final(self)@ =~= old(self)@.update(idx as int, Some(version@)));
        }
    }
}

/// The left fold that takes the maximum of the assigned versions among
/// the listed nodes: unassigned nodes are skipped; a tie or a win
/// replaces the running maximum; an incomparable pair is an error.
pub open spec fn spec_fold_max(vm: Seq<Option<VersionV>>, xs: Seq<usize>) -> Result<
    Option<VersionV>,
    (),
>
    decreases xs.len(),
{
    if xs.len() == 0 {
        Ok(None)
    } else {
        match spec_fold_max(vm, xs.drop_last()) {
            Err(()) => Err(()),
            Ok(acc) => match vm[xs.last() as int] {
                None => Ok(acc),
                Some(v) => match acc {
                    None => Ok(Some(v)),
                    Some(m) => match spec_version_cmp(v, m) {
                        None => Err(()),
                        Some(Order::Less) => Ok(Some(m)),
                        Some(_) => Ok(Some(v)),
                    },
                },
            },
        }
    }
}

/// The fold reads only the listed slots of the map.
pub proof fn lemma_fold_max_frame(
    vm1: Seq<Option<VersionV>>,
    vm2: Seq<Option<VersionV>>,
    xs: Seq<usize>,
)
    requires
        forall|k: int| 0 <= k < xs.len() ==> vm1[(#[trigger] xs[k]) as int] == vm2[xs[k] as int],
    ensures
        spec_fold_max(vm1, xs) == spec_fold_max(vm2, xs),
    decreases xs.len(),
{
    if xs.len() > 0 {
        lemma_fold_max_frame(vm1, vm2, xs.drop_last());
        assert(vm1[xs.last() as int] == vm2[xs.last() as int]);
    }
}

/// An error met on a prefix of the fold stays an error for the whole
/// fold.
pub proof fn lemma_fold_err_extends(vm: Seq<Option<VersionV>>, xs: Seq<usize>, j: int)
    requires
        0 <= j <= xs.len(),
        spec_fold_max(vm, xs.take(j)) is Err,
    ensures
        spec_fold_max(vm, xs) is Err,
    decreases xs.len() - j,
{
    if j < xs.len() {
        assert(xs.take(j + 1).drop_last() =~= xs.take(j));
        lemma_fold_err_extends(vm, xs, j + 1);
    } else {
        assert(xs.take(j) =~= xs);
    }
}

/// The version a node must end up with, as a function of the graph, the
/// scheme, the ancestor closure and the final map itself: the tag where
/// one exists; the scheme's starting version at the tail; otherwise the
/// next version derived from the ancestors' maximum (or, where no
/// ancestor has a version, from the starting version at the node).
#[verifier::opaque]
pub open spec fn expected_version(
    g: GraphV,
    f: VersionFormatV,
    anc: Seq<Seq<bool>>,
    vm: Seq<Option<VersionV>>,
    i: int,
) -> Option<VersionV> {
    match first_version_tag(g.nodes[i].decorations) {
        Some(t) => Some(t),
        None => if i == g.tail {
            Some(spec_default_version(f, g.nodes[i]))
        } else {
            match spec_fold_max(vm, asc_indices(anc[i])) {
                Err(()) => None,
                Ok(None) => Some(
                    spec_next_version(spec_default_version(f, g.nodes[i]), g.nodes[i], f),
                ),
                Ok(Some(m)) => Some(spec_next_version(m, g.nodes[i], f)),
            }
        },
    }
}

/// The error a node must be reported with, if any: an incomparability
/// where the ancestors' maximum cannot be formed or a tag cannot be
/// compared to it, and a monotonicity violation where an explicit tag is
/// lower than the ancestors' maximum.
#[verifier::opaque]
pub open spec fn expected_err(
    g: GraphV,
    f: VersionFormatV,
    anc: Seq<Seq<bool>>,
    vm: Seq<Option<VersionV>>,
    i: int,
) -> Option<CcError> {
    match first_version_tag(g.nodes[i].decorations) {
        Some(t) => match spec_fold_max(vm, asc_indices(anc[i])) {
            Err(()) => Some(CcError::IncomparableVersionNumbers),
            Ok(None) => None,
            Ok(Some(m)) => match spec_version_cmp(t, m) {
                None => Some(CcError::IncomparableVersionNumbers),
                Some(Order::Less) => Some(CcError::MonotonicityViolation),
                Some(_) => None,
            },
        },
        None => if i == g.tail {
            None
        } else {
            match spec_fold_max(vm, asc_indices(anc[i])) {
                Err(()) => Some(CcError::IncomparableVersionNumbers),
                Ok(_) => None,
            }
        },
    }
}

/// A write at a node outside another node's ancestor set leaves that
/// node's ancestor fold unchanged.
pub proof fn lemma_fold_unchanged(
    ancs: Seq<Seq<bool>>,
    pos: Seq<usize>,
    vm0: Seq<Option<VersionV>>,
    vm1: Seq<Option<VersionV>>,
    ii: int,
    iw: int,
)
    requires
        0 <= ii < ancs.len(),
        ancs[ii].len() == vm0.len(),
        vm0.len() == vm1.len(),
        vm0.len() <= usize::MAX,
        forall|x: int| 0 <= x < vm0.len() && x != iw ==> vm0[x] == vm1[x],
        forall|x: int| 0 <= x < ancs[ii].len() && ancs[ii][x] ==> x != iw,
    ensures
        spec_fold_max(vm0, asc_indices(ancs[ii])) == spec_fold_max(vm1, asc_indices(ancs[ii])),
{
    lemma_asc_upto_membership(ancs[ii], ancs[ii].len() as int);
    assert forall|k: int|
        0 <= k < asc_indices(ancs[ii]).len() implies vm0[(
    #[trigger] asc_indices(ancs[ii])[k]) as int] == vm1[asc_indices(ancs[ii])[k] as int] by {
        let x = asc_indices(ancs[ii])[k] as int;
        assert(ancs[ii][x]);
    }
    lemma_fold_max_frame(vm0, vm1, asc_indices(ancs[ii]));
}

/// What a finished assignment looks like: every node carries its expected
/// version, and the error list holds exactly the expected errors.
pub open spec fn assigned_ok(
    g: GraphV,
    f: VersionFormatV,
    anc: Seq<Seq<bool>>,
    vm: Seq<Option<VersionV>>,
    errs: Seq<(usize, CcError)>,
) -> bool {
    &&& vm.len() == g.nodes.len()
    &&& forall|i: int| 0 <= i < g.nodes.len() ==> vm[i] == expected_version(g, f, anc, vm, i)
    &&& forall|i: int|
        0 <= i < g.nodes.len() ==> match #[trigger] expected_err(g, f, anc, vm, i) {
            Some(e) => errs.contains((i as usize, e)),
            None => forall|k: int| 0 <= k < errs.len() ==> ((#[trigger] errs[k]).0 as int) != i,
        }
    &&& forall|k: int|
        0 <= k < errs.len() ==> ((#[trigger] errs[k]).0 as int) < g.nodes.len() && expected_err(
            g,
            f,
            anc,
            vm,
            errs[k].0 as int,
        ) == Some(errs[k].1)
}

/// Forms the maximum of the assigned versions among the listed nodes.
#[verifier::loop_isolation(false)]
fn fold_max(vm: &VersionMap, xs: &Vec<usize>) -> (r: Result<Option<Version>, CcError>)
    requires
        forall|k: int| 0 <= k < xs@.len() ==> (#[trigger] xs@[k]) < vm@.len(),
    ensures
        match r {
            Ok(None) => spec_fold_max(vm@, xs@) == Ok::<Option<VersionV>, ()>(None),
            Ok(Some(v)) => spec_fold_max(vm@, xs@) == Ok::<Option<VersionV>, ()>(Some(v@)),
            Err(e) => spec_fold_max(vm@, xs@) is Err && e == CcError::IncomparableVersionNumbers,
        },
{
    let mut acc: Option<Version> = None;
    let mut k: usize = 0;
    while k < xs.len()
        invariant
            k <= xs@.len(),
            match acc {
                Some(v) => spec_fold_max(vm@, xs@.take(k as int)) == Ok::<Option<VersionV>, ()>(Some(v@)),
                None => spec_fold_max(vm@, xs@.take(k as int)) == Ok::<Option<VersionV>, ()>(None),
            },
        decreases xs@.len() - k,
    {
        proof {
            assert(xs@.take(k + 1).drop_last() =~= xs@.take(k as int));
            assert(xs@.take(k + 1).last() == xs@[k as int]);
        }
        let x = xs[k];
        match vm.get(x) {
            None => {
                proof {
                    assert(vm@[x as int] is None);
                }
            },
            Some(v) => {
                match &acc {
                    None => {
                        acc = Some(v.dup());
                    },
                    Some(m) => {
                        match v.compare(m) {
                            Ok(Order::Less) => {},
                            Ok(_) => {
                                acc = Some(v.dup());
                            },
                            Err(e) => {
                                proof {
                                    assert(spec_fold_max(vm@, xs@.take(k + 1)) is Err);
                                    lemma_fold_err_extends(vm@, xs@, k + 1);
                                }
                                return Err(e);
                            },
                        }
                    },
                }
            },
        }
        k += 1;
    }
    proof {
        assert(xs@.take(xs@.len() as int) =~= xs@);
    }
    Ok(acc)
}

/// Expectations depend on the map only through the ancestor fold.
proof fn lemma_expected_frame(
    g: GraphV,
    f: VersionFormatV,
    ancs: Seq<Seq<bool>>,
    vm0: Seq<Option<VersionV>>,
    vm1: Seq<Option<VersionV>>,
    ii: int,
)
    requires
        spec_fold_max(vm0, asc_indices(ancs[ii])) == spec_fold_max(vm1, asc_indices(ancs[ii])),
    ensures
        expected_version(g, f, ancs, vm0, ii) == expected_version(g, f, ancs, vm1, ii),
        expected_err(g, f, ancs, vm0, ii) == expected_err(g, f, ancs, vm1, ii),
{
    reveal(expected_version);
    reveal(expected_err);
}

/// A write at position `k` of the dependency order does not change the
/// ancestor fold, nor the expectations, of any node at position `k` or
/// earlier.
proof fn lemma_step_frame(
    g: GraphV,
    f: VersionFormatV,
    ancs: Seq<Seq<bool>>,
    pos: Seq<usize>,
    vm0: Seq<Option<VersionV>>,
    vm1: Seq<Option<VersionV>>,
    i: int,
    k: int,
)
    requires
        vm0.len() == g.nodes.len(),
        vm1.len() == g.nodes.len(),
        ancs.len() == g.nodes.len(),
        pos.len() == g.nodes.len(),
        g.nodes.len() <= usize::MAX,
        forall|ii: int| 0 <= ii < g.nodes.len() ==> (#[trigger] ancs[ii]).len() == g.nodes.len(),
        forall|ii: int, x: int|
            0 <= ii < g.nodes.len() && 0 <= x < g.nodes.len() && ancs[ii][x] ==> pos[x] < pos[ii],
        0 <= i < g.nodes.len(),
        pos[i] == k,
        forall|x: int| 0 <= x < vm0.len() && x != i ==> vm0[x] == vm1[x],
    ensures
        forall|ii: int|
            #![trigger pos[ii]]
            0 <= ii < g.nodes.len() && pos[ii] < k + 1 ==> expected_version(g, f, ancs, vm0, ii)
                == expected_version(g, f, ancs, vm1, ii) && expected_err(g, f, ancs, vm0, ii)
                == expected_err(g, f, ancs, vm1, ii),
{
    assert forall|ii: int|
        0 <= ii < g.nodes.len() && pos[ii] < k + 1 implies expected_version(g, f, ancs, vm0, ii)
        == expected_version(g, f, ancs, vm1, ii) && expected_err(g, f, ancs, vm0, ii)
        == expected_err(g, f, ancs, vm1, ii) by {
        assert forall|x: int| 0 <= x < ancs[ii].len() && ancs[ii][x] implies x != i by {
            assert(pos[x] < pos[ii]);
        }
        lemma_fold_unchanged(ancs, pos, vm0, vm1, ii, i);
        lemma_expected_frame(g, f, ancs, vm0, vm1, ii);
    }
}

/// One engine step preserves the assignment invariant: writing node `i`
/// (the `k`-th in dependency order) its expected version and error leaves
/// every earlier node's expectation intact, because no ancestor set
/// reaches a slot at or beyond position `k`.
#[verifier::rlimit(100)]
#[verifier::spinoff_prover]
proof fn lemma_assign_step(
    g: GraphV,
    f: VersionFormatV,
    ancs: Seq<Seq<bool>>,
    pos: Seq<usize>,
    vm0: Seq<Option<VersionV>>,
    vm1: Seq<Option<VersionV>>,
    errs0: Seq<(usize, CcError)>,
    errs1: Seq<(usize, CcError)>,
    i: int,
    k: int,
)
    requires
        vm0.len() == g.nodes.len(),
        vm1.len() == g.nodes.len(),
        ancs.len() == g.nodes.len(),
        pos.len() == g.nodes.len(),
        g.nodes.len() <= usize::MAX,
        forall|ii: int| 0 <= ii < g.nodes.len() ==> (#[trigger] ancs[ii]).len() == g.nodes.len(),
        forall|ii: int, x: int|
            0 <= ii < g.nodes.len() && 0 <= x < g.nodes.len() && ancs[ii][x] ==> pos[x] < pos[ii],
        0 <= i < g.nodes.len(),
        pos[i] == k,
        forall|ii: int| 0 <= ii < g.nodes.len() && (#[trigger] pos[ii]) == k ==> ii == i,
        vm1 == vm0.update(i, expected_version(g, f, ancs, vm0, i)),
        errs1 == match expected_err(g, f, ancs, vm0, i) {
            Some(e) => errs0.push((i as usize, e)),
            None => errs0,
        },
        forall|ii: int|
            0 <= ii < g.nodes.len() && pos[ii] < k ==> vm0[ii] == expected_version(
                g,
                f,
                ancs,
                vm0,
                ii,
            ),
        forall|ii: int| 0 <= ii < g.nodes.len() && pos[ii] >= k ==> (#[trigger] vm0[ii]) is None,
        forall|ii: int|
            0 <= ii < g.nodes.len() && pos[ii] < k ==> match expected_err(g, f, ancs, vm0, ii) {
                Some(e) => errs0.contains((ii as usize, e)),
                None => forall|kk: int|
                    0 <= kk < errs0.len() ==> ((#[trigger] errs0[kk]).0 as int) != ii,
            },
        forall|ii: int|
            0 <= ii < g.nodes.len() && pos[ii] >= k ==> forall|kk: int|
                0 <= kk < errs0.len() ==> ((#[trigger] errs0[kk]).0 as int) != ii,
        forall|kk: int|
            0 <= kk < errs0.len() ==> ((#[trigger] errs0[kk]).0 as int) < g.nodes.len()
                && pos[errs0[kk].0 as int] < k && expected_err(g, f, ancs, vm0, errs0[kk].0 as int)
                == Some(errs0[kk].1),
    ensures
        forall|ii: int|
            0 <= ii < g.nodes.len() && pos[ii] < k + 1 ==> vm1[ii] == expected_version(
                g,
                f,
                ancs,
                vm1,
                ii,
            ),
        forall|ii: int| 0 <= ii < g.nodes.len() && pos[ii] >= k + 1 ==> (#[trigger] vm1[ii]) is None,
        forall|ii: int|
            0 <= ii < g.nodes.len() && pos[ii] < k + 1 ==> match expected_err(g, f, ancs, vm1, ii) {
                Some(e) => errs1.contains((ii as usize, e)),
                None => forall|kk: int|
                    0 <= kk < errs1.len() ==> ((#[trigger] errs1[kk]).0 as int) != ii,
            },
        forall|ii: int|
            0 <= ii < g.nodes.len() && pos[ii] >= k + 1 ==> forall|kk: int|
                0 <= kk < errs1.len() ==> ((#[trigger] errs1[kk]).0 as int) != ii,
        forall|kk: int|
            0 <= kk < errs1.len() ==> ((#[trigger] errs1[kk]).0 as int) < g.nodes.len()
                && pos[errs1[kk].0 as int] < k + 1 && expected_err(g, f, ancs, vm1, errs1[kk].0 as int)
                == Some(errs1[kk].1),
{
    let n = g.nodes.len() as int;
    lemma_step_frame(g, f, ancs, pos, vm0, vm1, i, k);
    assert forall|ii: int|
        0 <= ii < n && pos[ii] < k + 1 implies vm1[ii] == expected_version(g, f, ancs, vm1, ii) by {
        if ii != i {
            assert(vm1[ii] == vm0[ii]);
        }
    }
    assert forall|ii: int|
        0 <= ii < n && pos[ii] < k + 1 implies match expected_err(g, f, ancs, vm1, ii) {
        Some(e) => errs1.contains((ii as usize, e)),
        None => forall|kk: int| 0 <= kk < errs1.len() ==> ((#[trigger] errs1[kk]).0 as int) != ii,
    } by {
        if ii == i {
            match expected_err(g, f, ancs, vm1, ii) {
                Some(e) => {
                    assert(errs1.last() == (ii as usize, e));
                },
                None => {},
            }
        } else {
            match expected_err(g, f, ancs, vm1, ii) {
                Some(e) => {
                    assert(errs0.contains((ii as usize, e)));
                    let kk = choose|kk: int| 0 <= kk < errs0.len() && errs0[kk] == (ii as usize, e);
                    assert(errs1[kk] == (ii as usize, e));
                },
                None => {},
            }
        }
    }
    assert forall|kk: int|
        0 <= kk < errs1.len() implies ((#[trigger] errs1[kk]).0 as int) < n && pos[errs1[kk].0 as int]
        < k + 1 && expected_err(g, f, ancs, vm1, errs1[kk].0 as int) == Some(errs1[kk].1) by {
        if kk < errs0.len() {
            assert(errs1[kk] == errs0[kk]);
        } else {
            assert(errs1[kk].0 as int == i);
        }
    }
}

/// Assigns one node its expected version and reports its expected error,
/// reading only already-final slots of the map.
#[verifier::loop_isolation(false)]
#[verifier::rlimit(60)]
fn process_node(
    graph: &CommitGraph,
    version_format: &VersionFormat,
    vm: &mut VersionMap,
    errs: &mut Vec<(usize, CcError)>,
    i: usize,
    anc: &Vec<Vec<bool>>,
)
    requires
        graph@.wf(),
        old(vm)@.len() == graph@.nodes.len(),
        anc@.len() == graph@.nodes.len(),
        (i as int) < graph@.nodes.len(),
        anc@[i as int]@.len() == graph@.nodes.len(),
        old(vm)@[i as int] is None,
    ensures
        final(vm)@ =~= old(vm)@.update(
            i as int,
            expected_version(
                graph@,
                version_format@,
                Seq::new(anc@.len(), |k: int| anc@[k]@),
                old(vm)@,
                i as int,
            ),
        ),
        final(errs)@ =~= match expected_err(
            graph@,
            version_format@,
            Seq::new(anc@.len(), |k: int| anc@[k]@),
            old(vm)@,
            i as int,
        ) {
            Some(e) => old(errs)@.push((i, e)),
            None => old(errs)@,
        },
{
    let ghost g = graph@;
    let ghost f = version_format@;
    let ghost ancs = Seq::new(anc@.len(), |k: int| anc@[k]@);
    let ghost vm0 = vm@;
    let row_len = anc[i].len();
    proof {
        reveal(expected_version);
        reveal(expected_err);
        assert(ancs[i as int] == anc@[i as int]@);
        assert(ancs[i as int].len() == row_len);
    }

    let anc_list = graph.ancestors_list(&anc, i);
    proof {
        assert(anc_list@ =~= asc_indices(ancs[i as int])) by {
            assert(anc_list@ == asc_upto(anc@[i as int]@, anc@[i as int]@.len() as int));
        }
        lemma_asc_upto_membership(ancs[i as int], ancs[i as int].len() as int);
        assert forall|kk: int|
            0 <= kk < anc_list@.len() implies (#[trigger] anc_list@[kk]) < vm@.len() by {
            assert(ancs[i as int][anc_list@[kk] as int]);
        }
    }
    let folded = fold_max(vm, &anc_list);

    let entry = &graph.nodes[i];
    proof {
        assert(entry@ == g.nodes[i as int]);
        assert(entry@.wf());
    }
    let tagged = entry.as_tagged_version();
    match tagged {
        Some(t) => {
            let tv = t.dup();
            proof {
                assert(first_version_tag(g.nodes[i as int].decorations) == Some(tv@));
                assert(expected_version(g, f, ancs, vm0, i as int) == Some(tv@));
            }
            match &folded {
                Err(e) => {
                    errs.push((i, CcError::IncomparableVersionNumbers));
                },
                Ok(None) => {},
                Ok(Some(m)) => {
                    match tv.compare(m) {
                        Ok(Order::Less) => {
                            errs.push((i, CcError::MonotonicityViolation));
                        },
                        Ok(_) => {},
                        Err(_) => {
                            errs.push((i, CcError::IncomparableVersionNumbers));
                        },
                    }
                },
            }
            vm.set(i, tv);
            proof {
                assert(vm0 == old(vm)@);
                assert(vm@ =~= vm0.update(
                    i as int,
                    expected_version(g, f, ancs, vm0, i as int),
                ));
            }
        },
        None => {
            if i == graph.tailidx() {
                vm.set(i, version_format.as_default_version(entry));
            } else {
                match folded {
                    Err(e) => {
                        errs.push((i, CcError::IncomparableVersionNumbers));
                        proof {
                            assert(vm@ =~= vm0.update(i as int, None));
                        }
                    },
                    Ok(None) => {
                        let base = version_format.as_default_version(entry);
                        vm.set(i, base.next_version(entry, version_format));
                    },
                    Ok(Some(m)) => {
                        vm.set(i, m.next_version(entry, version_format));
                    },
                }
            }
        },
    }
}

/// Assigns a version to every node of the graph.
///
/// Succeeds unless the parent edges close a cycle.  On success it
/// returns the map together with the collected per-node errors: the
/// monotonicity violations of explicit tags and the incomparabilities met
/// while folding ancestor maxima.  There exists an ancestor closure of
/// the graph under which every node's entry and every reported error is
/// exactly as `expected_version` and `expected_err` describe.
#[verifier::loop_isolation(false)]
#[verifier::rlimit(100)]
pub fn assign(graph: &CommitGraph, version_format: &VersionFormat) -> (r: Result<
    (VersionMap, Vec<(usize, CcError)>),
    CcError,
>)
    requires
        graph@.wf(),
    ensures
        match r {
            Ok(out) => exists|anc: Seq<Seq<bool>>|
                #[trigger] anc_ok(graph@, anc) && assigned_ok(
                    graph@,
                    version_format@,
                    anc,
                    out.0@,
                    out.1@,
                ),
            Err(e) => e == CcError::CycleDetected && crate::graph::has_cycle(graph@),
        },
{
    let n = graph.node_count();
    let (order, pos) = match graph.topo_order() {
        Ok(op) => op,
        Err(_) => {
            return Err(CcError::CycleDetected);
        },
    };
    let anc = graph.ancestor_flags(&order, &pos);
    let ghost ancs = Seq::new(anc@.len(), |i: int| anc@[i]@);
    let ghost g = graph@;
    let ghost f = version_format@;

    let mut vm = VersionMap { versions: Vec::new() };
    let mut k: usize = 0;
    while k < n
        invariant
            k <= n,
            vm@.len() == k,
            forall|i: int| 0 <= i < k ==> (#[trigger] vm@[i]) is None,
        decreases n - k,
    {
        let ghost prev = vm@;
        vm.versions.push(None);
        proof {
            assert(vm@ =~= prev.push(None));
        }
        k += 1;
    }
    let mut errs: Vec<(usize, CcError)> = Vec::new();

    let mut k: usize = 0;
    while k < n
        invariant
            k <= n,
            n == g.nodes.len(),
            vm@.len() == n,
            ancs.len() == n,
            forall|i: int| 0 <= i < n ==> (#[trigger] ancs[i]).len() == n,
            forall|i: int| 0 <= i < n ==> ancs[i] == anc@[i]@,
            anc_ok(g, ancs),
            topo_ok(g, order@, pos@),
            forall|i: int, x: int|
                0 <= i < n && 0 <= x < n && ancs[i][x] ==> pos@[x] < pos@[i],
            forall|i: int|
                0 <= i < n && pos@[i] < k ==> vm@[i] == expected_version(g, f, ancs, vm@, i),
            forall|i: int| 0 <= i < n && pos@[i] >= k ==> (#[trigger] vm@[i]) is None,
            forall|i: int|
                0 <= i < n && pos@[i] < k ==> match expected_err(g, f, ancs, vm@, i) {
                    Some(e) => errs@.contains((i as usize, e)),
                    None => forall|kk: int|
                        0 <= kk < errs@.len() ==> ((#[trigger] errs@[kk]).0 as int) != i,
                },
            forall|i: int|
                0 <= i < n && pos@[i] >= k ==> forall|kk: int|
                    0 <= kk < errs@.len() ==> ((#[trigger] errs@[kk]).0 as int) != i,
            forall|kk: int|
                0 <= kk < errs@.len() ==> ((#[trigger] errs@[kk]).0 as int) < n && pos@[errs@[kk].0 as int]
                    < k && expected_err(g, f, ancs, vm@, errs@[kk].0 as int) == Some(errs@[kk].1),
        decreases n - k,
    {
        let i = order[k];
        proof {
            assert(pos@[i as int] == k) by {
                assert(order@[pos@[i as int] as int] == i);
                assert(order@[k as int] == i);
            }
        }
        let ghost vm0 = vm@;
        let ghost errs0 = errs@;
        proof {
            assert(ancs[i as int] == anc@[i as int]@);
            assert(ancs[i as int].len() == n);
            assert forall|ii: int|
                0 <= ii < n && (#[trigger] pos@[ii]) == k implies ii == i as int by {
                assert(order@[pos@[ii] as int] == ii);
                assert(order@[k as int] == i);
            }
        }
        process_node(graph, version_format, &mut vm, &mut errs, i, &anc);
        proof {
            lemma_assign_step(g, f, ancs, pos@, vm0, vm@, errs0, errs@, i as int, k as int);
        }
        k += 1;
    }
    proof {
        assert forall|i: int| 0 <= i < n implies pos@[i] < k by {
            assert(pos@[i] < n);
        }
        assert forall|i: int|
            0 <= i < g.nodes.len() implies vm@[i] == expected_version(g, f, ancs, vm@, i) by {
            assert(pos@[i] < k);
        }
        assert forall|i: int|
            0 <= i < g.nodes.len() implies match #[trigger] expected_err(g, f, ancs, vm@, i) {
            Some(e) => errs@.contains((i as usize, e)),
            None => forall|kk: int|
                0 <= kk < errs@.len() ==> ((#[trigger] errs@[kk]).0 as int) != i,
        } by {
            assert(pos@[i] < k);
        }
        assert(assigned_ok(g, f, ancs, vm@, errs@));
        assert(anc_ok(g, ancs) && assigned_ok(g, f, ancs, vm@, errs@));
    }
    Ok((vm, errs))
}

/// Tag-override legality.  In a finished assignment, a commit that
/// carries an explicit version tag whose ancestors' maximum exists is
/// reported as a monotonicity violation exactly when the tag compares
/// below that maximum; when the tag compares at or above it, no error is
/// reported for the commit at all.
pub proof fn lemma_tag_override_legality(
    g: GraphV,
    f: VersionFormatV,
    anc: Seq<Seq<bool>>,
    vm: Seq<Option<VersionV>>,
    errs: Seq<(usize, CcError)>,
    i: int,
    t: VersionV,
    m: VersionV,
)
    requires
        assigned_ok(g, f, anc, vm, errs),
        g.nodes.len() <= usize::MAX,
        0 <= i < g.nodes.len(),
        first_version_tag(g.nodes[i].decorations) == Some(t),
        spec_fold_max(vm, asc_indices(anc[i])) == Ok::<Option<VersionV>, ()>(Some(m)),
    ensures
        vm[i] == Some(t),
        errs.contains((i as usize, CcError::MonotonicityViolation)) <==> spec_version_cmp(t, m)
            == Some(Order::Less),
        (spec_version_cmp(t, m) matches Some(o) && o != Order::Less) ==> forall|k: int|
            0 <= k < errs.len() ==> ((#[trigger] errs[k]).0 as int) != i,
{
    assert(vm[i] == expected_version(g, f, anc, vm, i));
    assert(expected_version(g, f, anc, vm, i) == Some(t)) by {
        reveal(expected_version);
    }
    let ee = expected_err(g, f, anc, vm, i);
    assert(ee == (match spec_version_cmp(t, m) {
        None => Some(CcError::IncomparableVersionNumbers),
        Some(Order::Less) => Some(CcError::MonotonicityViolation),
        Some(_) => None::<CcError>,
    })) by {
        reveal(expected_err);
    }
    if errs.contains((i as usize, CcError::MonotonicityViolation)) {
        let k = choose|k: int|
            0 <= k < errs.len() && errs[k] == (i as usize, CcError::MonotonicityViolation);
        assert(errs[k].0 == i as usize && errs[k].1 == CcError::MonotonicityViolation);
        assert(expected_err(g, f, anc, vm, errs[k].0 as int) == Some(errs[k].1));
        assert(errs[k].0 as int == i);
        assert(ee == Some(CcError::MonotonicityViolation));
    }
}

/// Over slots assigned plain sequential versions, the ancestors' fold
/// yields a plain sequential maximum, if it yields one.
pub proof fn lemma_fold_max_plain(vm: Seq<Option<VersionV>>, xs: Seq<usize>)
    requires
        forall|kk: int| 0 <= kk < xs.len() ==> (#[trigger] xs[kk]) < vm.len(),
        forall|kk: int|
            0 <= kk < xs.len() ==> (#[trigger] vm[xs[kk] as int] matches Some(v) ==> is_plain_seq(
                v,
            )),
    ensures
        spec_fold_max(vm, xs) matches Ok(opt) ==> (opt matches Some(m) ==> is_plain_seq(m)
            && exists|kk: int| 0 <= kk < xs.len() && vm[(#[trigger] xs[kk]) as int] == Some(m)),
    decreases xs.len(),
{
    if xs.len() > 0 {
        lemma_fold_max_plain(vm, xs.drop_last());
        assert(forall|kk: int| 0 <= kk < xs.drop_last().len() ==> xs.drop_last()[kk] == xs[kk]);
        match spec_fold_max(vm, xs) {
            Ok(Some(m)) => {
                match spec_fold_max(vm, xs.drop_last()) {
                    Ok(prev) => {
                        if prev is Some && m == prev->0 {
                            let kk = choose|kk: int|
                                0 <= kk < xs.drop_last().len() && vm[(#[trigger] xs.drop_last()[
                                kk]) as int] == Some(m);
                            assert(vm[xs[kk] as int] == Some(m));
                        } else {
                            assert(vm[xs[xs.len() - 1] as int] == Some(m));
                        }
                    },
                    _ => {},
                }
            },
            _ => {},
        }
    }
}

/// Over slots assigned plain sequential versions, the ancestors' fold
/// dominates every assigned slot it ranges over.
pub proof fn lemma_fold_max_dominates(vm: Seq<Option<VersionV>>, xs: Seq<usize>, k: int)
    requires
        0 <= k < xs.len(),
        forall|kk: int| 0 <= kk < xs.len() ==> (#[trigger] xs[kk]) < vm.len(),
        forall|kk: int|
            0 <= kk < xs.len() ==> (#[trigger] vm[xs[kk] as int] matches Some(v) ==> is_plain_seq(
                v,
            )),
        vm[xs[k] as int] is Some,
    ensures
        spec_fold_max(vm, xs) matches Ok(opt) ==> (opt matches Some(m) && is_plain_seq(m)
            && spec_version_cmp(m, vm[xs[k] as int]->Some_0) is Some && spec_version_cmp(
            m,
            vm[xs[k] as int]->Some_0,
        ) != Some(Order::Less)),
    decreases xs.len(),
{
    lemma_fold_max_plain(vm, xs);
    let last = xs.last();
    let prefix = xs.drop_last();
    assert(forall|kk: int| 0 <= kk < prefix.len() ==> prefix[kk] == xs[kk]);
    lemma_fold_max_plain(vm, prefix);
    let target = vm[xs[k] as int]->Some_0;
    match spec_fold_max(vm, prefix) {
        Err(()) => {},
        Ok(acc) => {
            if k == xs.len() - 1 {
                let v = vm[last as int]->Some_0;
                assert(is_plain_seq(v));
                match acc {
                    None => {
                        lemma_plain_cmp_total(v, v);
                    },
                    Some(m0) => {
                        assert(is_plain_seq(m0));
                        lemma_plain_cmp_total(v, m0);
                        lemma_plain_cmp_total(v, v);
                    },
                }
            } else {
                lemma_fold_max_dominates(vm, prefix, k);
                match acc {
                    None => {},
                    Some(m0) => {
                        assert(is_plain_seq(m0));
                        match vm[last as int] {
                            None => {},
                            Some(v) => {
                                assert(is_plain_seq(v));
                                lemma_plain_cmp_total(v, m0);
                                match spec_version_cmp(v, m0) {
                                    Some(Order::Less) => {},
                                    _ => {
                                        lemma_plain_cmp_trans(v, m0, target);
                                    },
                                }
                            },
                        }
                    },
                }
            }
        },
    }
}

/// In a finished, error-free assignment no node's ancestor fold errs,
/// and a tagged node's tag is at or above the fold's maximum.
#[verifier::rlimit(100)]
#[verifier::spinoff_prover]
proof fn lemma_node_err_shape(
    g: GraphV,
    f: VersionFormatV,
    anc: Seq<Seq<bool>>,
    vm: Seq<Option<VersionV>>,
    errs: Seq<(usize, CcError)>,
    i: int,
)
    requires
        assigned_ok(g, f, anc, vm, errs),
        errs.len() == 0,
        0 <= i < g.nodes.len(),
    ensures
        (first_version_tag(g.nodes[i].decorations) is Some || i != g.tail) ==> !(spec_fold_max(
            vm,
            asc_indices(anc[i]),
        ) is Err),
        first_version_tag(g.nodes[i].decorations) matches Some(t) ==> (spec_fold_max(
            vm,
            asc_indices(anc[i]),
        ) matches Ok(Some(m)) ==> (spec_version_cmp(t, m) matches Some(o) && o != Order::Less)),
{
    reveal(expected_err);
    match expected_err(g, f, anc, vm, i) {
        Some(e) => {
            assert(errs.contains((i as usize, e)));
            assert(false);
        },
        None => {},
    }
}

/// In a finished assignment a tagged node carries its tag, and an
/// untagged non-tail node carries the advance of its ancestors' maximum.
#[verifier::rlimit(100)]
#[verifier::spinoff_prover]
proof fn lemma_node_version_shape(
    g: GraphV,
    f: VersionFormatV,
    anc: Seq<Seq<bool>>,
    vm: Seq<Option<VersionV>>,
    errs: Seq<(usize, CcError)>,
    i: int,
)
    requires
        assigned_ok(g, f, anc, vm, errs),
        0 <= i < g.nodes.len(),
    ensures
        match first_version_tag(g.nodes[i].decorations) {
            Some(t) => vm[i] == Some(t),
            None => i != g.tail ==> (spec_fold_max(vm, asc_indices(anc[i])) matches Ok(Some(m))
                ==> vm[i] == Some(spec_next_version(m, g.nodes[i], f))),
        },
{
    reveal(expected_version);
    assert(vm[i] == expected_version(g, f, anc, vm, i));
}

/// Monotonicity along the edges of a finished assignment./// Monotonicity along the edges of a finished assignment.  Where every
/// assigned version is a plain sequential one with room to grow, no
/// error was reported, and the commit's subject is version-advancing
/// unless the commit carries a tag, the commit's version compares at or
/// above each of its parents' — and so, at a merge, at or above the
/// maximum over all its parents.
#[verifier::rlimit(100)]
#[verifier::spinoff_prover]
pub proof fn lemma_edge_monotonicity(
    g: GraphV,
    f: VersionFormatV,
    anc: Seq<Seq<bool>>,
    vm: Seq<Option<VersionV>>,
    errs: Seq<(usize, CcError)>,
    i: int,
)
    requires
        g.wf(),
        g.nodes.len() <= usize::MAX,
        anc_ok(g, anc),
        assigned_ok(g, f, anc, vm, errs),
        errs.len() == 0,
        forall|x: int|
            0 <= x < vm.len() ==> (#[trigger] vm[x] matches Some(v) ==> is_plain_seq_below_top(v)),
        forall|x: int| 0 <= x < vm.len() ==> (#[trigger] vm[x]) is Some,
        0 <= i < g.nodes.len(),
        first_version_tag(g.nodes[i].decorations) is None
            ==> crate::logs::spec_is_advancing(g.nodes[i].subject),
    ensures
        forall|j: int|
            0 <= j < g.parents[i].len() ==> (spec_version_cmp(
                vm[i]->Some_0,
                vm[(#[trigger] g.parents[i][j]) as int]->Some_0,
            ) matches Some(o) && o != Order::Less),
{
    lemma_node_err_shape(g, f, anc, vm, errs, i);
    lemma_node_version_shape(g, f, anc, vm, errs, i);
    assert forall|j: int|
        0 <= j < g.parents[i].len() implies (spec_version_cmp(
        vm[i]->Some_0,
        vm[(#[trigger] g.parents[i][j]) as int]->Some_0,
    ) matches Some(o) && o != Order::Less) by {
        let p = g.parents[i][j] as int;
        assert(0 <= p < g.nodes.len());
        // the parent sits in the node's ancestor closure, so in the fold
        assert(anc[i][p]) by {
            assert(g.parents[i][j] as int == p || anc[g.parents[i][j] as int][p]);
        }
        let row = anc[i];
        assert(row.len() == g.nodes.len()) by {
            assert(anc_ok(g, anc));
        }
        lemma_asc_upto_membership(row, row.len() as int);
        let xs = asc_indices(row);
        assert(xs.contains(p as usize));
        let k = choose|k: int| 0 <= k < xs.len() && xs[k] == p as usize;
        assert forall|kk: int| 0 <= kk < xs.len() implies (#[trigger] xs[kk]) < vm.len() by {
            assert(row[xs[kk] as int]);
        }
        lemma_fold_max_dominates(vm, xs, k);
        let pv = vm[p]->Some_0;
        match first_version_tag(g.nodes[i].decorations) {
            Some(t) => {
                match spec_fold_max(vm, xs) {
                    Err(()) => {
                        assert(false);
                    },
                    Ok(None) => {
                        assert(false);
                    },
                    Ok(Some(m)) => {
                        lemma_plain_cmp_trans(t, m, pv);
                    },
                }
            },
            None => {
                if i == g.tail {
                    assert(g.parents[i].len() == 0);
                    assert(false);
                } else {
                    match spec_fold_max(vm, xs) {
                        Err(()) => {
                            assert(false);
                        },
                        Ok(None) => {
                            assert(false);
                        },
                        Ok(Some(m)) => {
                            assert(vm[i] == Some(spec_next_version(m, g.nodes[i], f)));
                            lemma_fold_max_plain(vm, xs);
                            let kw = choose|kk: int|
                                0 <= kk < xs.len() && vm[(#[trigger] xs[kk]) as int] == Some(m);
                            assert(is_plain_seq_below_top(m));
                            lemma_advancing_step_monotone(m, g.nodes[i], f);
                            lemma_plain_cmp_trans(spec_next_version(m, g.nodes[i], f), m, pv);
                        },
                    }
                }
            },
        }
    }
}

} // verus!