//! The changelog generator: classifies commit subjects into change
//! kinds, orders them (breaking changes first, then features, fixes,
//! custom-typed changes and plain-text entries, each ascending by
//! timestamp), and renders the grouped release notes.
//!
//! Classification goes by the commit type alone, as the changelog reads
//! it: `breaking`/`major` types are breaking changes, `feat`/`feature`/
//! `minor` are features, `fix`/`bug`/`patch` are fixes, any other
//! conventional type forms its own named section, and non-conventional
//! subjects fall under the miscellaneous section.

use crate::error::CcError;
use crate::graph::asc_indices;
use crate::graph::asc_upto;
use crate::graph::has_cycle;
use crate::graph::lemma_asc_upto_membership;
use crate::graph::CommitGraph;
use crate::graph::GraphV;
use crate::logs::Subject;
use crate::logs::SubjectV;
use crate::text::spec_digit_char;
use crate::text::digit_str;
use crate::text::streq;
use crate::time::civil_fields;
use crate::time::civil_day_of;
use crate::time::civil_hour_of;
use crate::time::civil_minute_of;
use crate::time::civil_month_of;
use crate::time::civil_second_of;
use crate::time::civil_year_of;
use crate::time::MAX_EPOCH_SECS;
use vstd::prelude::*;
use vstd::relations::sorted_by;

verus! {

/// Mathematical view of a `ChangeKind`.
#[verifier::ext_equal]
pub enum ChangeKindV {
    Breaking,
    Feature,
    Fix,
    Named(Seq<char>),
    Misc,
}

/// The kind of a changelog entry: which section it belongs to.
#[derive(Clone, Debug)]
pub enum ChangeKind {
    /// A breaking change.
    Breaking,
    /// A feature.
    Feature,
    /// A fix.
    Fix,
    /// A conventional commit of a custom type, sectioned under that type.
    Named(String),
    /// A subject that is not a conventional commit.
    Misc,
}

impl View for ChangeKind {
    type V = ChangeKindV;

    open spec fn view(&self) -> ChangeKindV {
        match self {
            ChangeKind::Breaking => ChangeKindV::Breaking,
            ChangeKind::Feature => ChangeKindV::Feature,
            ChangeKind::Fix => ChangeKindV::Fix,
            ChangeKind::Named(n) => ChangeKindV::Named(n@),
            ChangeKind::Misc => ChangeKindV::Misc,
        }
    }
}

/// Mathematical view of a `ChangeEntry`.
#[verifier::ext_equal]
pub struct ChangeEntryV {
    pub kind: ChangeKindV,
    pub scope: Option<Seq<char>>,
    pub description: Seq<char>,
    pub commit_epoch: u64,
}

/// One changelog entry: a classified commit subject with its scope,
/// description and timestamp.
#[derive(Clone, Debug)]
pub struct ChangeEntry {
    /// The section the entry belongs to.
    pub kind: ChangeKind,
    /// The scope the subject carried, if any.
    pub scope: Option<String>,
    /// The description (or, for a plain-text subject, the whole line).
    pub description: String,
    /// The commit's timestamp, seconds since the Unix epoch.
    pub commit_epoch: u64,
}

impl View for ChangeEntry {
    type V = ChangeEntryV;

    open spec fn view(&self) -> ChangeEntryV {
        ChangeEntryV {
            kind: self.kind@,
            scope: match &self.scope {
                Some(s) => Some(s@),
                None => None,
            },
            description: self.description@,
            commit_epoch: self.commit_epoch,
        }
    }
}

/// The change kind a subject classifies to, by its commit type alone.
pub open spec fn spec_change_kind(s: SubjectV) -> ChangeKindV {
    match s {
        SubjectV::Conventional(c) => {
            if c.commit_type == "breaking"@ || c.commit_type == "major"@ {
                ChangeKindV::Breaking
            } else if c.commit_type == "feat"@ || c.commit_type == "feature"@ || c.commit_type
                == "minor"@ {
                ChangeKindV::Feature
            } else if c.commit_type == "fix"@ || c.commit_type == "bug"@ || c.commit_type
                == "patch"@ {
                ChangeKindV::Fix
            } else {
                ChangeKindV::Named(c.commit_type)
            }
        },
        SubjectV::Text(_) => ChangeKindV::Misc,
    }
}

/// The changelog entry a subject and its timestamp classify to.
pub open spec fn spec_classify(s: SubjectV, epoch: u64) -> ChangeEntryV {
    ChangeEntryV {
        kind: spec_change_kind(s),
        scope: match s {
            SubjectV::Conventional(c) => c.scope,
            SubjectV::Text(_) => None,
        },
        description: match s {
            SubjectV::Conventional(c) => c.description,
            SubjectV::Text(t) => t,
        },
        commit_epoch: epoch,
    }
}

/// Classifies one subject into a changelog entry.
pub fn classify(subject: &Subject, epoch: u64) -> (r: ChangeEntry)
    ensures
        r@ == spec_classify(subject@, epoch),
{
    match subject {
        Subject::Conventional(c) => {
            let t = c.commit_type.as_str();
            let kind = if streq(t, "breaking") || streq(t, "major") {
                ChangeKind::Breaking
            } else if streq(t, "feat") || streq(t, "feature") || streq(t, "minor") {
                ChangeKind::Feature
            } else if streq(t, "fix") || streq(t, "bug") || streq(t, "patch") {
                ChangeKind::Fix
            } else {
                ChangeKind::Named(c.commit_type.clone())
            };
            ChangeEntry {
                kind,
                scope: match &c.scope {
                    Some(s) => Some(s.clone()),
                    None => None,
                },
                description: c.description.clone(),
                commit_epoch: epoch,
            }
        },
        Subject::Text(t) => ChangeEntry {
            kind: ChangeKind::Misc,
            scope: None,
            description: t.clone(),
            commit_epoch: epoch,
        },
    }
}

/// The section rank of a change kind: breaking changes come first, then
/// features, fixes, the custom-typed sections, and the miscellaneous
/// entries last.  All custom types share one rank and interleave by
/// timestamp, as the rendering opens a fresh section header whenever the
/// type changes.
pub open spec fn spec_kind_rank(k: ChangeKindV) -> int {
    match k {
        ChangeKindV::Breaking => 0,
        ChangeKindV::Feature => 1,
        ChangeKindV::Fix => 2,
        ChangeKindV::Named(_) => 3,
        ChangeKindV::Misc => 4,
    }
}

/// The changelog order on entries: by section rank, then ascending
/// timestamp.
pub open spec fn change_le(a: ChangeEntryV, b: ChangeEntryV) -> bool {
    spec_kind_rank(a.kind) < spec_kind_rank(b.kind) || (spec_kind_rank(a.kind) == spec_kind_rank(
        b.kind,
    ) && a.commit_epoch <= b.commit_epoch)
}

/// The section rank of a change kind, executable form.
fn kind_rank(k: &ChangeKind) -> (r: u64)
    ensures
        r as int == spec_kind_rank(k@),
{
    match k {
        ChangeKind::Breaking => 0,
        ChangeKind::Feature => 1,
        ChangeKind::Fix => 2,
        ChangeKind::Named(_) => 3,
        ChangeKind::Misc => 4,
    }
}

/// Whether `a` comes at or before `b` in changelog order.
fn change_le_exec(a: &ChangeEntry, b: &ChangeEntry) -> (r: bool)
    ensures
        r == change_le(a@, b@),
{
    let ra = kind_rank(&a.kind);
    let rb = kind_rank(&b.kind);
    ra < rb || (ra == rb && a.commit_epoch <= b.commit_epoch)
}

/// A copy of a change entry with the same view.
fn dup_entry(e: &ChangeEntry) -> (r: ChangeEntry)
    ensures
        r@ == e@,
{
    ChangeEntry {
        kind: match &e.kind {
            ChangeKind::Breaking => ChangeKind::Breaking,
            ChangeKind::Feature => ChangeKind::Feature,
            ChangeKind::Fix => ChangeKind::Fix,
            ChangeKind::Named(n) => ChangeKind::Named(n.clone()),
            ChangeKind::Misc => ChangeKind::Misc,
        },
        scope: match &e.scope {
            Some(s) => Some(s.clone()),
            None => None,
        },
        description: e.description.clone(),
        commit_epoch: e.commit_epoch,
    }
}

/// The views of a vector of entries.
pub open spec fn entry_views(v: Seq<ChangeEntry>) -> Seq<ChangeEntryV> {
    Seq::new(v.len(), |i: int| v[i]@)
}

/// A sequence inserted into keeps its elements, plus the new one.
proof fn lemma_insert_multiset(s: Seq<ChangeEntryV>, p: int, x: ChangeEntryV)
    requires
        0 <= p <= s.len(),
    ensures
        s.insert(p, x).to_multiset() =~= s.to_multiset().insert(x),
    decreases s.len() - p,
{
    broadcast use vstd::seq_lib::group_to_multiset_ensures;

    if p == s.len() {
        assert(s.insert(p, x) =~= s.push(x));
    } else {
        lemma_insert_multiset(s.drop_last(), p, x);
        assert(s.insert(p, x) =~= s.drop_last().insert(p, x).push(s.last()));
        assert(s =~= s.drop_last().push(s.last()));
        assert(s.drop_last().insert(p, x).push(s.last()).to_multiset() =~= s.drop_last().insert(
            p,
            x,
        ).to_multiset().insert(s.last()));
    }
}

/// The position at which a new entry joins a sorted run: the first
/// index whose entry does not come at or before it.
#[verifier::loop_isolation(false)]
fn insert_pos(out: &Vec<ChangeEntry>, x: &ChangeEntry) -> (p: usize)
    ensures
        p <= out@.len(),
        forall|j: int| 0 <= j < p ==> change_le(#[trigger] entry_views(out@)[j], x@),
        (p as int) < out@.len() ==> !change_le(entry_views(out@)[p as int], x@),
{
    let mut p: usize = 0;
    while p < out.len()
        invariant
            p <= out@.len(),
            forall|j: int| 0 <= j < p ==> change_le(#[trigger] entry_views(out@)[j], x@),
        decreases out@.len() - p,
    {
        if !change_le_exec(&out[p], x) {
            return p;
        }
        proof {
            assert(change_le(entry_views(out@)[p as int], x@));
        }
        p += 1;
    }
    p
}

/// Sorts changelog entries into changelog order: by section rank, then
/// ascending timestamp; the result holds exactly the given entries.
#[verifier::loop_isolation(false)]
#[verifier::rlimit(60)]
pub fn sort_changes(entries: &Vec<ChangeEntry>) -> (r: Vec<ChangeEntry>)
    ensures
        sorted_by(entry_views(r@), |a: ChangeEntryV, b: ChangeEntryV| change_le(a, b)),
        entry_views(r@).to_multiset() == entry_views(entries@).to_multiset(),
{
    broadcast use vstd::seq_lib::group_to_multiset_ensures;

    let ghost le = |a: ChangeEntryV, b: ChangeEntryV| change_le(a, b);
    let mut out: Vec<ChangeEntry> = Vec::new();
    let mut i: usize = 0;
    proof {
        assert(entry_views(out@).to_multiset() =~= entry_views(
            entries@.subrange(0, 0),
        ).to_multiset());
    }
    while i < entries.len()
        invariant
            i <= entries@.len(),
            sorted_by(entry_views(out@), le),
            entry_views(out@).to_multiset() == entry_views(entries@.subrange(0, i as int))
                .to_multiset(),
        decreases entries@.len() - i,
    {
        let x = dup_entry(&entries[i]);
        let ghost xv = x@;
        let p = insert_pos(&out, &x);
        let ghost out0 = entry_views(out@);
        out.insert(p, x);
        proof {
            assert(entry_views(out@) =~= out0.insert(p as int, xv));
            lemma_insert_multiset(out0, p as int, xv);
            assert(entries@.subrange(0, i + 1).drop_last() =~= entries@.subrange(0, i as int));
            assert(entry_views(entries@.subrange(0, i + 1)) =~= entry_views(
                entries@.subrange(0, i as int),
            ).push(xv));
            if (p as int) < out0.len() {
                // the order is total, so a failed comparison flips
                assert(change_le(xv, out0[p as int]));
            }
            assert forall|j: int, k: int|
                0 <= j < k < entry_views(out@).len() implies le(
                entry_views(out@)[j],
                entry_views(out@)[k],
            ) by {
                let nv = entry_views(out@);
                if k < p {
                    assert(nv[j] == out0[j] && nv[k] == out0[k]);
                    assert(sorted_by(out0, le));
                    assert(le(out0[j], out0[k]));
                } else if k == p {
                    assert(nv[j] == out0[j] && nv[k] == xv);
                    assert(change_le(out0[j], xv));
                } else if j == p {
                    assert(nv[j] == xv && nv[k] == out0[k - 1]);
                    assert(change_le(xv, out0[p as int]));
                    if k - 1 > p {
                        assert(le(out0[p as int], out0[k - 1]));
                    }
                } else if j < p {
                    assert(nv[j] == out0[j] && nv[k] == out0[k - 1]);
                    if j < k - 1 {
                        assert(le(out0[j], out0[k - 1]));
                    } else {
                        assert(change_le(out0[j], xv));
                        assert(change_le(xv, out0[p as int]));
                    }
                } else {
                    assert(nv[j] == out0[j - 1] && nv[k] == out0[k - 1]);
                    assert(le(out0[j - 1], out0[k - 1]));
                }
            }
        }
        i += 1;
    }
    proof {
        assert(entries@.subrange(0, entries@.len() as int) =~= entries@);
    }
    out
}

/// Two decimal digits, zero padded.
pub open spec fn spec_pad2(n: u64) -> Seq<char> {
    seq![spec_digit_char((n / 10) as u64), spec_digit_char((n % 10) as u64)]
}

/// Four decimal digits, zero padded.
pub open spec fn spec_pad4(n: u64) -> Seq<char> {
    seq![
        spec_digit_char((n / 1000) as u64),
        spec_digit_char(((n / 100) % 10) as u64),
        spec_digit_char(((n / 10) % 10) as u64),
        spec_digit_char((n % 10) as u64),
    ]
}

/// The rendering of a timestamp, over the calendar reading of its epoch
/// second: `YYYY-MM-DD hh:mm:ss UTC`.
pub open spec fn spec_date_chars(epoch: u64) -> Seq<char> {
    spec_pad4(civil_year_of(epoch)) + seq!['-'] + spec_pad2(civil_month_of(epoch)) + seq!['-']
        + spec_pad2(civil_day_of(epoch)) + seq![' '] + spec_pad2(civil_hour_of(epoch)) + seq![':']
        + spec_pad2(civil_minute_of(epoch)) + seq![':'] + spec_pad2(civil_second_of(epoch))
        + " UTC"@
}

/// Two decimal digits, zero padded.
fn pad2(n: u64) -> (r: String)
    requires
        n <= 99,
    ensures
        r@ == spec_pad2(n),
{
    let mut s = String::new();
    s.append(digit_str(n / 10));
    s.append(digit_str(n % 10));
    proof {
        assert(s@ =~= spec_pad2(n));
    }
    s
}

/// Four decimal digits, zero padded.
fn pad4(n: u64) -> (r: String)
    requires
        n <= 9999,
    ensures
        r@ == spec_pad4(n),
{
    let mut s = String::new();
    s.append(digit_str(n / 1000));
    s.append(digit_str((n / 100) % 10));
    s.append(digit_str((n / 10) % 10));
    s.append(digit_str(n % 10));
    proof {
        assert(s@ =~= spec_pad4(n));
    }
    s
}

/// Renders a timestamp as `YYYY-MM-DD hh:mm:ss UTC`.
fn render_date(epoch: u64) -> (r: String)
    requires
        epoch <= MAX_EPOCH_SECS,
    ensures
        r@ == spec_date_chars(epoch),
{
    proof {
        reveal_strlit("-");
        reveal_strlit(" ");
        reveal_strlit(":");
        reveal_strlit(" UTC");
    }
    let stamp = civil_fields(epoch);
    let mut s = String::new();
    s.append(pad4(stamp.year).as_str());
    s.append("-");
    s.append(pad2(stamp.month).as_str());
    s.append("-");
    s.append(pad2(stamp.day).as_str());
    s.append(" ");
    s.append(pad2(stamp.hour).as_str());
    s.append(":");
    s.append(pad2(stamp.minute).as_str());
    s.append(":");
    s.append(pad2(stamp.second).as_str());
    s.append(" UTC");
    proof {
        assert(s@ =~= spec_date_chars(epoch));
    }
    s
}

/// The header text of a section: the fixed names for the three semantic
/// kinds and the miscellaneous section, the commit type itself for a
/// custom kind.
pub open spec fn spec_kind_header(k: ChangeKindV) -> Seq<char> {
    match k {
        ChangeKindV::Breaking => "Breaking Changes"@,
        ChangeKindV::Feature => "Features"@,
        ChangeKindV::Fix => "Fixes"@,
        ChangeKindV::Named(n) => n,
        ChangeKindV::Misc => "Misc"@,
    }
}

/// The header text of a section.
fn kind_header(k: &ChangeKind) -> (r: String)
    ensures
        r@ == spec_kind_header(k@),
{
    match k {
        ChangeKind::Breaking => String::from_str("Breaking Changes"),
        ChangeKind::Feature => String::from_str("Features"),
        ChangeKind::Fix => String::from_str("Fixes"),
        ChangeKind::Named(n) => n.clone(),
        ChangeKind::Misc => String::from_str("Misc"),
    }
}

/// The rendered lines of the entries from `i` on, carrying the header of
/// the section last opened and the scope last announced: a `##` header
/// opens whenever the section header text changes, a `###` line whenever
/// a scoped entry's scope differs from the last announced one, and every
/// entry renders as `- (<date>): <description>`.
/// The text one entry contributes, given the header of the section last
/// opened and the scope last announced, together with the scope state it
/// leaves behind.
pub open spec fn spec_entry_piece(
    e: ChangeEntryV,
    last_level: Option<Seq<char>>,
    cur_scope: Option<Seq<char>>,
) -> (Seq<char>, Option<Seq<char>>) {
    let hdr = spec_kind_header(e.kind);
    let head_part: Seq<char> = if last_level == Some(hdr) {
        Seq::empty()
    } else {
        "## "@ + hdr + "\n"@
    };
    let scope_state: (Seq<char>, Option<Seq<char>>) = match e.scope {
        Some(sc) => if cur_scope == Some(sc) {
            (Seq::empty(), cur_scope)
        } else {
            ("### "@ + sc + "\n"@, Some(sc))
        },
        None => (Seq::empty(), cur_scope),
    };
    (
        head_part + scope_state.0 + "- ("@ + spec_date_chars(e.commit_epoch) + "): "@
            + e.description + "\n"@,
        scope_state.1,
    )
}

pub open spec fn spec_render_entries(
    entries: Seq<ChangeEntryV>,
    i: int,
    last_level: Option<Seq<char>>,
    cur_scope: Option<Seq<char>>,
) -> Seq<char>
    decreases entries.len() - i,
{
    if i < 0 || i >= entries.len() {
        Seq::empty()
    } else {
        let e = entries[i];
        let piece = spec_entry_piece(e, last_level, cur_scope);
        piece.0 + spec_render_entries(entries, i + 1, Some(spec_kind_header(e.kind)), piece.1)
    }
}

/// The rendered changelog of a sorted entry list.
pub open spec fn spec_render_changelog(entries: Seq<ChangeEntryV>) -> Seq<char> {
    "# ChangeLog\n"@ + spec_render_entries(entries, 0, None, None)
}

/// Renders the text one entry contributes, returning its piece, its
/// section header, and the scope state it leaves behind.
#[verifier::rlimit(60)]
fn render_one(
    e: &ChangeEntry,
    last_level: &Option<String>,
    cur_scope: Option<String>,
) -> (r: (String, String, Option<String>))
    requires
        e@.commit_epoch <= MAX_EPOCH_SECS,
    ensures
        r.1@ == spec_kind_header(e@.kind),
        ({
            let piece = spec_entry_piece(
                e@,
                match last_level {
                    Some(l) => Some(l@),
                    None => None,
                },
                match cur_scope {
                    Some(c) => Some(c@),
                    None => None,
                },
            );
            &&& r.0@ == piece.0
            &&& (match r.2 {
                Some(c) => Some(c@),
                None => None,
            }) == piece.1
        }),
{
    proof {
        reveal_strlit("## ");
        reveal_strlit("### ");
        reveal_strlit("- (");
        reveal_strlit("): ");
        reveal_strlit("\n");
    }
    let hdr = kind_header(&e.kind);
    let mut piece = String::new();
    let same_level = match last_level {
        Some(l) => streq(l.as_str(), hdr.as_str()),
        None => false,
    };
    if !same_level {
        piece.append("## ");
        piece.append(hdr.as_str());
        piece.append("\n");
    }
    let mut new_scope = cur_scope;
    match &e.scope {
        Some(sc) => {
            let same_scope = match &new_scope {
                Some(c) => streq(c.as_str(), sc.as_str()),
                None => false,
            };
            if !same_scope {
                piece.append("### ");
                piece.append(sc.as_str());
                piece.append("\n");
                new_scope = Some(sc.clone());
            }
        },
        None => {},
    }
    piece.append("- (");
    piece.append(render_date(e.commit_epoch).as_str());
    piece.append("): ");
    piece.append(e.description.as_str());
    piece.append("\n");
    proof {
        assert(piece@ =~= spec_entry_piece(
            e@,
            match last_level {
                Some(l) => Some(l@),
                None => None,
            },
            match cur_scope {
                Some(c) => Some(c@),
                None => None,
            },
        ).0);
    }
    (piece, hdr, new_scope)
}

/// Renders sorted changelog entries as grouped release notes: one `##`
/// section header per run of one section, `###` scope lines as the scope
/// changes, and one date-stamped line per entry.
#[verifier::loop_isolation(false)]
#[verifier::rlimit(60)]
pub fn render_changelog(entries: &Vec<ChangeEntry>) -> (r: String)
    requires
        forall|k: int|
            0 <= k < entries@.len() ==> (#[trigger] entries@[k])@.commit_epoch <= MAX_EPOCH_SECS,
    ensures
        r@ == spec_render_changelog(entry_views(entries@)),
{
    proof {
        reveal_strlit("# ChangeLog\n");
    }
    let ghost ev = entry_views(entries@);
    let mut out = String::new();
    out.append("# ChangeLog\n");
    let mut last_level: Option<String> = None;
    let mut cur_scope: Option<String> = None;
    let mut i: usize = 0;
    while i < entries.len()
        invariant
            i <= entries@.len(),
            spec_render_changelog(ev) == out@ + spec_render_entries(
                ev,
                i as int,
                match last_level {
                    Some(l) => Some(l@),
                    None => None,
                },
                match cur_scope {
                    Some(c) => Some(c@),
                    None => None,
                },
            ),
        decreases entries@.len() - i,
    {
        let e = &entries[i];
        proof {
            assert(e@ == ev[i as int]);
        }
        let (piece, hdr, new_scope) = render_one(e, &last_level, cur_scope);
        out.append(piece.as_str());
        last_level = Some(hdr);
        cur_scope = new_scope;
        i += 1;
    }
    proof {
        assert(spec_render_entries(ev, entries@.len() as int, match last_level {
            Some(l) => Some(l@),
            None => None,
        }, match cur_scope {
            Some(c) => Some(c@),
            None => None,
        }) =~= Seq::<char>::empty());
        assert(out@ =~= spec_render_changelog(ev));
    }
    out
}

/// The commits a changelog walk from `from` collects, besides `from`
/// itself: a commit is collected exactly when its subject is not
/// version-advancing and it is a parent of `from` or of another
/// collected commit.  Version-advancing ancestors stop the descent: their
/// effect is already summarized by the version bump.
pub open spec fn walk_ok(g: GraphV, from: int, inc: Seq<bool>) -> bool {
    &&& inc.len() == g.nodes.len()
    &&& forall|x: int|
        0 <= x < g.nodes.len() ==> ((#[trigger] inc[x]) <==> (!crate::logs::spec_is_advancing(
            g.nodes[x].subject,
        ) && exists|y: int, j: int|
            0 <= y < g.nodes.len() && 0 <= j < g.parents[y].len() && (#[trigger] g.parents[y][j])
                as int == x && (y == from || inc[y])))
}

/// The entries a changelog walk yields before sorting: the starting
/// commit itself, then the collected commits in index order.
pub open spec fn walk_entries(g: GraphV, from: int, inc: Seq<bool>) -> Seq<ChangeEntryV> {
    seq![spec_classify(g.nodes[from].subject, g.nodes[from].commit_epoch)] + asc_indices(
        inc,
    ).map_values(|x: usize| spec_classify(g.nodes[x as int].subject, g.nodes[x as int].commit_epoch))
}

/// Whether a subject advances a version slot, executable form.
fn is_advancing(subject: &Subject) -> (r: bool)
    ensures
        r == crate::logs::spec_is_advancing(subject@),
{
    match subject.bump_class() {
        crate::logs::BumpClass::Major => true,
        crate::logs::BumpClass::Minor => true,
        crate::logs::BumpClass::Patch => true,
        _ => false,
    }
}

/// Whether some edge from `from` or a flagged node points at `x`.
#[verifier::loop_isolation(false)]
fn has_marked_child(graph: &CommitGraph, inc: &Vec<bool>, from: usize, x: usize) -> (r: bool)
    requires
        graph@.wf(),
        inc@.len() == graph@.nodes.len(),
    ensures
        r == exists|y: int, j: int|
            0 <= y < graph@.nodes.len() && 0 <= j < graph@.parents[y].len() && (
            #[trigger] graph@.parents[y][j]) as int == x as int && (y == from as int || inc@[y]),
{
    let n = graph.node_count();
    let mut y: usize = 0;
    while y < n
        invariant
            y <= n,
            forall|yy: int, j: int|
                0 <= yy < y && 0 <= j < graph@.parents[yy].len() ==> !((#[trigger] graph@.parents[
                yy][j]) as int == x as int && (yy == from as int || inc@[yy])),
        decreases n - y,
    {
        if y == from || inc[y] {
            let row = &graph.parents[y];
            let mut j: usize = 0;
            while j < row.len()
                invariant
                    j <= row@.len(),
                    y < n,
                    row@ == graph@.parents[y as int],
                    forall|jj: int|
                        0 <= jj < j ==> (#[trigger] graph@.parents[y as int][jj]) as int
                            != x as int,
                decreases row@.len() - j,
            {
                if row[j] == x {
                    proof {
                        assert(graph@.parents[y as int][j as int] as int == x as int && (y as int
                            == from as int || inc@[y as int]));
                    }
                    return true;
                }
                j += 1;
            }
        }
        y += 1;
    }
    false
}

/// Collects the changelog entries of the history behind a commit: the
/// commit itself, and every ancestor reachable through parents without
/// crossing a version-advancing subject, sorted into changelog order.
/// Fails exactly as the dependency order does, when the parent edges
/// close a cycle.
#[verifier::loop_isolation(false)]
#[verifier::rlimit(100)]
pub fn changelog_from(graph: &CommitGraph, from: usize) -> (r: Result<Vec<ChangeEntry>, CcError>)
    requires
        graph@.wf(),
        (from as int) < graph@.nodes.len(),
    ensures
        match r {
            Ok(entries) => exists|inc: Seq<bool>|
                {
                    &&& #[trigger] walk_ok(graph@, from as int, inc)
                    &&& sorted_by(
                        entry_views(entries@),
                        |a: ChangeEntryV, b: ChangeEntryV| change_le(a, b),
                    )
                    &&& entry_views(entries@).to_multiset() == walk_entries(
                        graph@,
                        from as int,
                        inc,
                    ).to_multiset()
                },
            Err(e) => e == CcError::CycleDetected && has_cycle(graph@),
        },
{
    broadcast use vstd::seq_lib::group_to_multiset_ensures;

    let ghost g = graph@;
    let n = graph.node_count();
    let (order, pos) = match graph.topo_order() {
        Ok(op) => op,
        Err(_) => {
            return Err(CcError::CycleDetected);
        },
    };
    // mark the collected commits, children before parents, so every
    // possible child of a node is settled before the node itself
    let mut inc: Vec<bool> = Vec::new();
    let mut k: usize = 0;
    while k < n
        invariant
            k <= n,
            inc@.len() == k,
            forall|i: int| 0 <= i < k ==> !(#[trigger] inc@[i]),
        decreases n - k,
    {
        inc.push(false);
        k += 1;
    }
    let mut k: usize = n;
    while k > 0
        invariant
            k <= n,
            n == g.nodes.len(),
            inc@.len() == n,
            crate::graph::topo_ok(g, order@, pos@),
            forall|x: int|
                0 <= x < n && pos@[x] < k ==> !(#[trigger] inc@[x]),
            forall|x: int|
                0 <= x < n && pos@[x] >= k ==> ((#[trigger] inc@[x]) <==> (
                !crate::logs::spec_is_advancing(g.nodes[x].subject) && exists|y: int, j: int|
                    0 <= y < g.nodes.len() && 0 <= j < g.parents[y].len() && (
                    #[trigger] g.parents[y][j]) as int == x && (y == from as int || inc@[y]))),
        decreases k,
    {
        k = k - 1;
        let x = order[k];
        proof {
            assert(pos@[x as int] == k) by {
                assert(order@[pos@[x as int] as int] == x);
                assert(order@[k as int] == x);
            }
        }
        let ghost inc0 = inc@;
        let flag = if is_advancing(&graph.nodes[x].subject) {
            false
        } else {
            has_marked_child(graph, &inc, from, x)
        };
        inc[x] = flag;
        proof {
            assert(graph.nodes@[x as int]@ == g.nodes[x as int]);
            // the newly written slot has no edge into any settled slot,
            // so every settled equation is unchanged
            assert forall|xx: int|
                0 <= xx < n && pos@[xx] >= k implies ((#[trigger] inc@[xx]) <==> (
            !crate::logs::spec_is_advancing(g.nodes[xx].subject) && exists|y: int, j: int|
                0 <= y < g.nodes.len() && 0 <= j < g.parents[y].len() && (
                #[trigger] g.parents[y][j]) as int == xx && (y == from as int || inc@[y]))) by {
                if xx == x as int {
                    assert forall|y: int, j: int|
                        0 <= y < g.nodes.len() && 0 <= j < g.parents[y].len() && (
                        #[trigger] g.parents[y][j]) as int == xx implies (inc@[y] == inc0[y] && (y
                        != x as int)) by {
                        assert(pos@[g.parents[y][j] as int] < pos@[y]);
                        assert(pos@[y] > k);
                    }
                } else {
                    assert(inc@[xx] == inc0[xx]);
                    assert forall|y: int, j: int|
                        0 <= y < g.nodes.len() && 0 <= j < g.parents[y].len() && (
                        #[trigger] g.parents[y][j]) as int == xx implies (inc@[y] == inc0[y]) by {
                        assert(pos@[g.parents[y][j] as int] < pos@[y]);
                        assert(pos@[y] > pos@[xx] >= k);
                        assert(y != x as int);
                    }
                }
            }
        }
    }
    proof {
        assert forall|x: int| 0 <= x < n implies pos@[x] >= 0 by {}
    }

    // collect the entries: the starting commit, then the marked commits
    // in index order
    let mut entries: Vec<ChangeEntry> = Vec::new();
    entries.push(classify(&graph.nodes[from].subject, graph.nodes[from].commit_epoch));
    let mut x: usize = 0;
    while x < n
        invariant
            x <= n,
            n == g.nodes.len(),
            inc@.len() == n,
            entry_views(entries@) =~= seq![
                spec_classify(g.nodes[from as int].subject, g.nodes[from as int].commit_epoch),
            ] + asc_upto(inc@, x as int).map_values(
                |xx: usize| spec_classify(g.nodes[xx as int].subject, g.nodes[xx as int].commit_epoch),
            ),
        decreases n - x,
    {
        proof {
            assert(graph.nodes@[x as int]@ == g.nodes[x as int]);
        }
        let ghost prev = entry_views(entries@);
        if inc[x] {
            entries.push(classify(&graph.nodes[x].subject, graph.nodes[x].commit_epoch));
        }
        proof {
            let f = |xx: usize| spec_classify(
                g.nodes[xx as int].subject,
                g.nodes[xx as int].commit_epoch,
            );
            if inc@[x as int] {
                assert(asc_upto(inc@, x + 1) =~= asc_upto(inc@, x as int).push(x));
                assert(asc_upto(inc@, x + 1).map_values(f) =~= asc_upto(inc@, x as int).map_values(
                    f,
                ).push(f(x)));
                assert(entry_views(entries@) =~= prev.push(f(x)));
            } else {
                assert(asc_upto(inc@, x + 1) =~= asc_upto(inc@, x as int));
            }
            assert(entry_views(entries@) =~= seq![
                spec_classify(g.nodes[from as int].subject, g.nodes[from as int].commit_epoch),
            ] + asc_upto(inc@, x + 1).map_values(
                |xx: usize| spec_classify(g.nodes[xx as int].subject, g.nodes[xx as int].commit_epoch),
            ));
        }
        x += 1;
    }
    let sorted = sort_changes(&entries);
    proof {
        assert(walk_ok(g, from as int, inc@));
        assert(entry_views(entries@) =~= walk_entries(g, from as int, inc@));
        assert(walk_ok(graph@, from as int, inc@) && sorted_by(
            entry_views(sorted@),
            |a: ChangeEntryV, b: ChangeEntryV| change_le(a, b),
        ) && entry_views(sorted@).to_multiset() == walk_entries(
            graph@,
            from as int,
            inc@,
        ).to_multiset());
    }
    Ok(sorted)
}

} // verus!