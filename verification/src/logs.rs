//! The commit-record model: one `LogEntry` per historical commit, with
//! its decorations (tags, branch names, the HEAD marker), its parsed
//! subject line and its footers; and the classification tables that turn
//! subjects and branch names into version-bump decisions.

use crate::time::MAX_EPOCH_SECS;
use crate::version::is_full_hash;
use crate::version::Version;
use crate::version::VersionV;
use crate::text::streq;
use vstd::prelude::*;

verus! {

/// Mathematical view of a `ConventionalSubject`.
#[verifier::ext_equal]
pub struct ConventionalSubjectV {
    pub commit_type: Seq<char>,
    pub breaking: bool,
    pub scope: Option<Seq<char>>,
    pub description: Seq<char>,
}

/// A parsed `type[(scope)][!]: description` subject line.
#[derive(Clone, Debug)]
pub struct ConventionalSubject {
    /// The commit type, `feat`, `fix` and the like.
    pub commit_type: String,
    /// Whether the subject marks a breaking change (a `!` after the type,
    /// or a type that is itself breaking).
    pub breaking: bool,
    /// The scope between parentheses, if one was given.
    pub scope: Option<String>,
    /// The free-text description after the colon.
    pub description: String,
}

impl View for ConventionalSubject {
    type V = ConventionalSubjectV;

    open spec fn view(&self) -> ConventionalSubjectV {
        ConventionalSubjectV {
            commit_type: self.commit_type@,
            breaking: self.breaking,
            scope: match &self.scope {
                Some(s) => Some(s@),
                None => None,
            },
            description: self.description@,
        }
    }
}

/// Mathematical view of a `Subject`.
#[verifier::ext_equal]
pub enum SubjectV {
    Conventional(ConventionalSubjectV),
    Text(Seq<char>),
}

/// A commit subject: a conventional-commit line, or free text for
/// anything that does not follow the convention.
#[derive(Clone, Debug)]
pub enum Subject {
    /// A subject that parsed as a conventional commit.
    Conventional(ConventionalSubject),
    /// Any other subject, kept as written.
    Text(String),
}

impl View for Subject {
    type V = SubjectV;

    open spec fn view(&self) -> SubjectV {
        match self {
            Subject::Conventional(c) => SubjectV::Conventional(c@),
            Subject::Text(t) => SubjectV::Text(t@),
        }
    }
}

impl Subject {
    /// A copy with the same view.
    pub fn dup(&self) -> (r: Subject)
        ensures
            r@ == self@,
    {
        match self {
            Subject::Conventional(c) => Subject::Conventional(
                ConventionalSubject {
                    commit_type: c.commit_type.clone(),
                    breaking: c.breaking,
                    scope: match &c.scope {
                        Some(s) => Some(s.clone()),
                        None => None,
                    },
                    description: c.description.clone(),
                },
            ),
            Subject::Text(t) => Subject::Text(t.clone()),
        }
    }
}

/// Mathematical view of a `Tag`.
#[verifier::ext_equal]
pub enum TagV {
    Text(Seq<char>),
    Version(VersionV),
}

/// The value of a tag decoration: a version where the tag text parsed as
/// one, the raw text otherwise.
#[derive(Clone, Debug)]
pub enum Tag {
    /// A tag whose text is not a version under the format in force.
    Text(String),
    /// A tag that parsed as a version.
    Version(Version),
}

impl View for Tag {
    type V = TagV;

    open spec fn view(&self) -> TagV {
        match self {
            Tag::Text(t) => TagV::Text(t@),
            Tag::Version(v) => TagV::Version(v@),
        }
    }
}

/// Mathematical view of a `Decoration`.
#[verifier::ext_equal]
pub enum DecorationV {
    HeadIndicator(Seq<char>),
    Tag(TagV),
    RemoteBranch(Seq<char>, Seq<char>),
    Branch(Seq<char>),
}

/// Metadata the source-control system attaches to a commit.
#[derive(Clone, Debug)]
pub enum Decoration {
    /// The current-HEAD marker, carrying the checked-out branch.
    HeadIndicator(String),
    /// A tag attached to the commit.
    Tag(Tag),
    /// A remote-tracking branch tip: remote name and branch name.
    RemoteBranch(String, String),
    /// A local branch tip.
    Branch(String),
}

impl View for Decoration {
    type V = DecorationV;

    open spec fn view(&self) -> DecorationV {
        match self {
            Decoration::HeadIndicator(b) => DecorationV::HeadIndicator(b@),
            Decoration::Tag(t) => DecorationV::Tag(t@),
            Decoration::RemoteBranch(r, b) => DecorationV::RemoteBranch(r@, b@),
            Decoration::Branch(b) => DecorationV::Branch(b@),
        }
    }
}

/// One footer line of a commit message: a key/value pair.
#[derive(Clone, Debug)]
pub struct Footer {
    /// The key before the colon.
    pub key: String,
    /// The value after the colon.
    pub value: String,
}

/// Mathematical view of a `Footer`.
#[verifier::ext_equal]
pub struct FooterV {
    pub key: Seq<char>,
    pub value: Seq<char>,
}

impl View for Footer {
    type V = FooterV;

    open spec fn view(&self) -> FooterV {
        FooterV { key: self.key@, value: self.value@ }
    }
}

/// Mathematical view of a `LogEntry`.
#[verifier::ext_equal]
pub struct LogEntryV {
    pub name: Seq<char>,
    pub branch: Seq<char>,
    pub commit_hash: Seq<char>,
    pub commit_epoch: u64,
    pub parent_hashes: Seq<Seq<char>>,
    pub decorations: Seq<DecorationV>,
    pub subject: SubjectV,
    pub footers: Seq<FooterV>,
}

impl LogEntryV {
    /// Well-formedness of a record: a supported timestamp and a full
    /// commit hash.
    pub open spec fn wf(self) -> bool {
        &&& self.commit_epoch <= MAX_EPOCH_SECS
        &&& is_full_hash(self.commit_hash)
    }

    /// Whether the record carries the current-HEAD marker.
    pub open spec fn has_head_marker(self) -> bool {
        exists|i: int|
            0 <= i < self.decorations.len() && self.decorations[i] is HeadIndicator
    }

    /// Whether the commit is a merge: it has more than one parent.
    pub open spec fn is_merge(self) -> bool {
        self.parent_hashes.len() >= 2
    }
}

/// The first version tag among a decoration list, if any.
pub open spec fn first_version_tag(decs: Seq<DecorationV>) -> Option<VersionV>
    decreases decs.len(),
{
    if decs.len() == 0 {
        None
    } else {
        match decs[0] {
            DecorationV::Tag(TagV::Version(v)) => Some(v),
            _ => first_version_tag(decs.drop_first()),
        }
    }
}

/// One commit of the history, as parsed out of the raw log text.
#[derive(Clone, Debug)]
pub struct LogEntry {
    /// The sanitized subject name the log carries for the commit.
    pub name: String,
    /// The branch the commit was reached by.
    pub branch: String,
    /// The full forty-digit commit hash.
    pub commit_hash: String,
    /// The author timestamp, in seconds since the Unix epoch (UTC).
    pub commit_epoch: u64,
    /// The hashes of the commit's parents: none for the root, one for an
    /// ordinary commit, two or more for a merge.
    pub parent_hashes: Vec<String>,
    /// The decorations attached by the source-control system.
    pub decorations: Vec<Decoration>,
    /// The parsed subject line.
    pub subject: Subject,
    /// The footer key/value pairs of the commit message.
    pub footers: Vec<Footer>,
}

impl View for LogEntry {
    type V = LogEntryV;

    open spec fn view(&self) -> LogEntryV {
        LogEntryV {
            name: self.name@,
            branch: self.branch@,
            commit_hash: self.commit_hash@,
            commit_epoch: self.commit_epoch,
            parent_hashes: Seq::new(
                self.parent_hashes@.len(),
                |i: int| self.parent_hashes@[i]@,
            ),
            decorations: Seq::new(self.decorations@.len(), |i: int| self.decorations@[i]@),
            subject: self.subject@,
            footers: Seq::new(self.footers@.len(), |i: int| self.footers@[i]@),
        }
    }
}

impl LogEntry {
    /// The version of the first version tag on this commit, if any.
    pub fn as_tagged_version(&self) -> (r: Option<&Version>)
        ensures
            match r {
                Some(v) => first_version_tag(self@.decorations) == Some(v@),
                None => first_version_tag(self@.decorations) is None,
            },
    {
        let mut i: usize = 0;
        proof {
            assert(self@.decorations.skip(0) =~= self@.decorations);
        }
        while i < self.decorations.len()
            invariant
                i <= self.decorations.len(),
                first_version_tag(self@.decorations) == first_version_tag(
                    self@.decorations.skip(i as int),
                ),
            decreases self.decorations.len() - i,
        {
            proof {
                assert(self@.decorations.skip(i as int)[0] == self@.decorations[i as int]);
                assert(self@.decorations.skip(i as int).drop_first() =~= self@.decorations.skip(
                    i + 1,
                ));
            }
            match &self.decorations[i] {
                Decoration::Tag(Tag::Version(v)) => {
                    return Some(v);
                },
                _ => {},
            }
            i += 1;
        }
        proof {
            assert(self@.decorations.skip(self.decorations.len() as int).len() == 0);
        }
        None
    }

    /// Whether this commit carries the current-HEAD marker.
    pub fn is_current_head(&self) -> (r: bool)
        ensures
            r == self@.has_head_marker(),
    {
        let mut i: usize = 0;
        while i < self.decorations.len()
            invariant
                i <= self.decorations.len(),
                forall|j: int| 0 <= j < i ==> !(self@.decorations[j] is HeadIndicator),
            decreases self.decorations.len() - i,
        {
            match &self.decorations[i] {
                Decoration::HeadIndicator(_) => {
                    proof {
                        assert(self@.decorations[i as int] is HeadIndicator);
                    }
                    return true;
                },
                _ => {},
            }
            i += 1;
        }
        false
    }
}

impl Tag {
    /// A copy with the same view.
    pub fn dup(&self) -> (r: Tag)
        ensures
            r@ == self@,
    {
        match self {
            Tag::Text(t) => Tag::Text(t.clone()),
            Tag::Version(v) => Tag::Version(v.dup()),
        }
    }
}

impl Decoration {
    /// A copy with the same view.
    pub fn dup(&self) -> (r: Decoration)
        ensures
            r@ == self@,
    {
        match self {
            Decoration::HeadIndicator(b) => Decoration::HeadIndicator(b.clone()),
            Decoration::Tag(t) => Decoration::Tag(t.dup()),
            Decoration::RemoteBranch(rem, b) => Decoration::RemoteBranch(rem.clone(), b.clone()),
            Decoration::Branch(b) => Decoration::Branch(b.clone()),
        }
    }
}

impl LogEntry {
    /// A copy with the same view.
    pub fn dup(&self) -> (r: LogEntry)
        ensures
            r@ == self@,
    {
        let mut parent_hashes: Vec<String> = Vec::new();
        let mut i: usize = 0;
        while i < self.parent_hashes.len()
            invariant
                i <= self.parent_hashes.len(),
                parent_hashes@.len() == i,
                forall|k: int|
                    0 <= k < i ==> (#[trigger] parent_hashes@[k])@ == self.parent_hashes@[k]@,
            decreases self.parent_hashes.len() - i,
        {
            parent_hashes.push(self.parent_hashes[i].clone());
            i += 1;
        }
        let mut decorations: Vec<Decoration> = Vec::new();
        let mut i: usize = 0;
        while i < self.decorations.len()
            invariant
                i <= self.decorations.len(),
                decorations@.len() == i,
                forall|k: int|
                    0 <= k < i ==> (#[trigger] decorations@[k])@ == self.decorations@[k]@,
            decreases self.decorations.len() - i,
        {
            decorations.push(self.decorations[i].dup());
            i += 1;
        }
        let mut footers: Vec<Footer> = Vec::new();
        let mut i: usize = 0;
        while i < self.footers.len()
            invariant
                i <= self.footers.len(),
                footers@.len() == i,
                forall|k: int| 0 <= k < i ==> (#[trigger] footers@[k])@ == self.footers@[k]@,
            decreases self.footers.len() - i,
        {
            footers.push(
                Footer { key: self.footers[i].key.clone(), value: self.footers[i].value.clone() },
            );
            i += 1;
        }
        let r = LogEntry {
            name: self.name.clone(),
            branch: self.branch.clone(),
            commit_hash: self.commit_hash.clone(),
            commit_epoch: self.commit_epoch,
            parent_hashes,
            decorations,
            subject: self.subject.dup(),
            footers,
        };
        proof {
            assert(r@ =~= self@);
        }
        r
    }
}

/// How a subject classifies for version advancement.
#[derive(Clone, Copy, Debug, PartialEq, Eq, Structural)]
pub enum BumpClass {
    /// A breaking change: bump the major slot.
    Major,
    /// A feature: bump the minor slot.
    Minor,
    /// A fix: bump the patch slot.
    Patch,
    /// A conventional commit of any other type.
    OtherConventional,
    /// A subject that is not a conventional commit.
    Text,
}

/// Which prerelease policy a branch name selects.
#[derive(Clone, Copy, Debug, PartialEq, Eq, Structural)]
pub enum BranchClass {
    /// A release branch: versions carry no prerelease.
    Release,
    /// A release-candidate branch.
    Rc,
    /// A beta branch.
    Beta,
    /// An alpha branch.
    Alpha,
    /// Any other branch: versions carry a channel named after the branch.
    Other,
}

/// The classification of a subject: breaking changes and `breaking` /
/// `major` types bump the major slot, `feat` / `feature` / `minor` the
/// minor slot, `fix` / `bug` / `patch` the patch slot.
pub open spec fn spec_bump_class(s: SubjectV) -> BumpClass {
    match s {
        SubjectV::Conventional(c) => {
            if c.breaking || c.commit_type == "breaking"@ || c.commit_type == "major"@ {
                BumpClass::Major
            } else if c.commit_type == "feat"@ || c.commit_type == "feature"@ || c.commit_type
                == "minor"@ {
                BumpClass::Minor
            } else if c.commit_type == "fix"@ || c.commit_type == "bug"@ || c.commit_type
                == "patch"@ {
                BumpClass::Patch
            } else {
                BumpClass::OtherConventional
            }
        },
        SubjectV::Text(_) => BumpClass::Text,
    }
}

/// Whether the subject advances a version slot on its own.
pub open spec fn spec_is_advancing(s: SubjectV) -> bool {
    spec_bump_class(s) == BumpClass::Major || spec_bump_class(s) == BumpClass::Minor
        || spec_bump_class(s) == BumpClass::Patch
}

/// The classification of a branch name: `main` / `master` / `release`
/// are release branches, `staging` / `rc` release-candidate branches,
/// `development` / `beta` beta branches, `next` / `alpha` alpha branches.
pub open spec fn spec_branch_class(b: Seq<char>) -> BranchClass {
    if b == "main"@ || b == "master"@ || b == "release"@ {
        BranchClass::Release
    } else if b == "staging"@ || b == "rc"@ {
        BranchClass::Rc
    } else if b == "development"@ || b == "beta"@ {
        BranchClass::Beta
    } else if b == "next"@ || b == "alpha"@ {
        BranchClass::Alpha
    } else {
        BranchClass::Other
    }
}

impl Subject {
    /// Classifies this subject for version advancement.
    pub fn bump_class(&self) -> (r: BumpClass)
        ensures
            r == spec_bump_class(self@),
    {
        match self {
            Subject::Conventional(c) => {
                let t = c.commit_type.as_str();
                if c.breaking || streq(t, "breaking") || streq(t, "major") {
                    BumpClass::Major
                } else if streq(t, "feat") || streq(t, "feature") || streq(t, "minor") {
                    BumpClass::Minor
                } else if streq(t, "fix") || streq(t, "bug") || streq(t, "patch") {
                    BumpClass::Patch
                } else {
                    BumpClass::OtherConventional
                }
            },
            Subject::Text(_) => BumpClass::Text,
        }
    }
}

/// Classifies a branch name.
pub fn branch_class(b: &str) -> (r: BranchClass)
    ensures
        r == spec_branch_class(b@),
{
    if streq(b, "main") || streq(b, "master") || streq(b, "release") {
        BranchClass::Release
    } else if streq(b, "staging") || streq(b, "rc") {
        BranchClass::Rc
    } else if streq(b, "development") || streq(b, "beta") {
        BranchClass::Beta
    } else if streq(b, "next") || streq(b, "alpha") {
        BranchClass::Alpha
    } else {
        BranchClass::Other
    }
}

/// The commit history as parsed from the raw log text, newest first.
#[derive(Clone, Debug)]
pub struct Logs {
    /// The parsed records, in the order the log listed them.
    pub entries: Vec<LogEntry>,
}

impl View for Logs {
    type V = Seq<LogEntryV>;

    open spec fn view(&self) -> Seq<LogEntryV> {
        Seq::new(self.entries@.len(), |i: int| self.entries@[i]@)
    }
}


/// Something identified by a commit hash.
pub trait HasCommitHash {
    /// The commit hash, mathematically.
    spec fn spec_commit_hash(&self) -> Seq<char>;

    /// The commit hash.
    fn commit_hash_str(&self) -> (r: &str)
        ensures
            r@ == self.spec_commit_hash(),
    ;
}

impl HasCommitHash for LogEntry {
    open spec fn spec_commit_hash(&self) -> Seq<char> {
        self@.commit_hash
    }

    fn commit_hash_str(&self) -> (r: &str)
        ensures
            r@ == self.spec_commit_hash(),
    {
        self.commit_hash.as_str()
    }
}

/// The text tags among a decoration list, in order.
pub open spec fn spec_text_tags(decs: Seq<DecorationV>) -> Seq<Seq<char>>
    decreases decs.len(),
{
    if decs.len() == 0 {
        Seq::empty()
    } else {
        spec_text_tags(decs.drop_last()) + (match decs.last() {
            DecorationV::Tag(TagV::Text(t)) => seq![t],
            _ => Seq::empty(),
        })
    }
}

/// The local branch tips among a decoration list, in order.
pub open spec fn spec_local_branches(decs: Seq<DecorationV>) -> Seq<Seq<char>>
    decreases decs.len(),
{
    if decs.len() == 0 {
        Seq::empty()
    } else {
        spec_local_branches(decs.drop_last()) + (match decs.last() {
            DecorationV::Branch(b) => seq![b],
            _ => Seq::empty(),
        })
    }
}

/// The remote branch tips among a decoration list, in order.
pub open spec fn spec_remote_branches(decs: Seq<DecorationV>) -> Seq<(Seq<char>, Seq<char>)>
    decreases decs.len(),
{
    if decs.len() == 0 {
        Seq::empty()
    } else {
        spec_remote_branches(decs.drop_last()) + (match decs.last() {
            DecorationV::RemoteBranch(r, b) => seq![(r, b)],
            _ => Seq::empty(),
        })
    }
}

/// Something that carries plain text tags.
pub trait HasTextTags {
    /// The text tags, mathematically.
    spec fn spec_text_tag_list(&self) -> Seq<Seq<char>>;

    /// The text tags, in decoration order.
    fn text_tags(&self) -> (r: Vec<String>)
        ensures
            r@.len() == self.spec_text_tag_list().len(),
            forall|k: int|
                0 <= k < r@.len() ==> (#[trigger] r@[k])@ == self.spec_text_tag_list()[k],
    ;
}

impl HasTextTags for LogEntry {
    open spec fn spec_text_tag_list(&self) -> Seq<Seq<char>> {
        spec_text_tags(self@.decorations)
    }

    #[verifier::loop_isolation(false)]
    fn text_tags(&self) -> (r: Vec<String>)
        ensures
            r@.len() == self.spec_text_tag_list().len(),
            forall|k: int|
                0 <= k < r@.len() ==> (#[trigger] r@[k])@ == self.spec_text_tag_list()[k],
    {
        let mut out: Vec<String> = Vec::new();
        let mut i: usize = 0;
        while i < self.decorations.len()
            invariant
                i <= self.decorations.len(),
                out@.len() == spec_text_tags(self@.decorations.take(i as int)).len(),
                forall|k: int|
                    0 <= k < out@.len() ==> (#[trigger] out@[k])@ == spec_text_tags(
                        self@.decorations.take(i as int),
                    )[k],
            decreases self.decorations.len() - i,
        {
            proof {
                assert(self@.decorations.take(i + 1).drop_last() =~= self@.decorations.take(
                    i as int,
                ));
                assert(self@.decorations.take(i + 1).last() == self@.decorations[i as int]);
            }
            match &self.decorations[i] {
                Decoration::Tag(Tag::Text(t)) => {
                    out.push(t.clone());
                },
                _ => {},
            }
            i += 1;
        }
        proof {
            assert(self@.decorations.take(self.decorations.len() as int) =~= self@.decorations);
        }
        out
    }
}

/// Something that carries local branch tips.
pub trait HasLocalBranches {
    /// The local branch tips, mathematically.
    spec fn spec_local_branch_list(&self) -> Seq<Seq<char>>;

    /// The local branch tips, in decoration order.
    fn local_branches(&self) -> (r: Vec<String>)
        ensures
            r@.len() == self.spec_local_branch_list().len(),
            forall|k: int|
                0 <= k < r@.len() ==> (#[trigger] r@[k])@ == self.spec_local_branch_list()[k],
    ;
}

impl HasLocalBranches for LogEntry {
    open spec fn spec_local_branch_list(&self) -> Seq<Seq<char>> {
        spec_local_branches(self@.decorations)
    }

    #[verifier::loop_isolation(false)]
    fn local_branches(&self) -> (r: Vec<String>)
        ensures
            r@.len() == self.spec_local_branch_list().len(),
            forall|k: int|
                0 <= k < r@.len() ==> (#[trigger] r@[k])@ == self.spec_local_branch_list()[k],
    {
        let mut out: Vec<String> = Vec::new();
        let mut i: usize = 0;
        while i < self.decorations.len()
            invariant
                i <= self.decorations.len(),
                out@.len() == spec_local_branches(self@.decorations.take(i as int)).len(),
                forall|k: int|
                    0 <= k < out@.len() ==> (#[trigger] out@[k])@ == spec_local_branches(
                        self@.decorations.take(i as int),
                    )[k],
            decreases self.decorations.len() - i,
        {
            proof {
                assert(self@.decorations.take(i + 1).drop_last() =~= self@.decorations.take(
                    i as int,
                ));
                assert(self@.decorations.take(i + 1).last() == self@.decorations[i as int]);
            }
            match &self.decorations[i] {
                Decoration::Branch(b) => {
                    out.push(b.clone());
                },
                _ => {},
            }
            i += 1;
        }
        proof {
            assert(self@.decorations.take(self.decorations.len() as int) =~= self@.decorations);
        }
        out
    }
}

/// Something that carries remote branch tips.
pub trait HasRemoteBranches {
    /// The remote branch tips, mathematically.
    spec fn spec_remote_branch_list(&self) -> Seq<(Seq<char>, Seq<char>)>;

    /// The remote branch tips, in decoration order.
    fn remote_branches(&self) -> (r: Vec<(String, String)>)
        ensures
            r@.len() == self.spec_remote_branch_list().len(),
            forall|k: int|
                0 <= k < r@.len() ==> ((#[trigger] r@[k]).0@, r@[k].1@)
                    == self.spec_remote_branch_list()[k],
    ;
}

impl HasRemoteBranches for LogEntry {
    open spec fn spec_remote_branch_list(&self) -> Seq<(Seq<char>, Seq<char>)> {
        spec_remote_branches(self@.decorations)
    }

    #[verifier::loop_isolation(false)]
    fn remote_branches(&self) -> (r: Vec<(String, String)>)
        ensures
            r@.len() == self.spec_remote_branch_list().len(),
            forall|k: int|
                0 <= k < r@.len() ==> ((#[trigger] r@[k]).0@, r@[k].1@)
                    == self.spec_remote_branch_list()[k],
    {
        let mut out: Vec<(String, String)> = Vec::new();
        let mut i: usize = 0;
        while i < self.decorations.len()
            invariant
                i <= self.decorations.len(),
                out@.len() == spec_remote_branches(self@.decorations.take(i as int)).len(),
                forall|k: int|
                    0 <= k < out@.len() ==> ((#[trigger] out@[k]).0@, out@[k].1@)
                        == spec_remote_branches(self@.decorations.take(i as int))[k],
            decreases self.decorations.len() - i,
        {
            proof {
                assert(self@.decorations.take(i + 1).drop_last() =~= self@.decorations.take(
                    i as int,
                ));
                assert(self@.decorations.take(i + 1).last() == self@.decorations[i as int]);
            }
            match &self.decorations[i] {
                Decoration::RemoteBranch(rem, b) => {
                    out.push((rem.clone(), b.clone()));
                },
                _ => {},
            }
            i += 1;
        }
        proof {
            assert(self@.decorations.take(self.decorations.len() as int) =~= self@.decorations);
        }
        out
    }
}

/// Something that carries every kind of branch name.
pub trait HasBranches {
    /// Every branch name the decorations mention, mathematically: the
    /// local tips followed by the remote tips' branch names.
    spec fn spec_branch_list(&self) -> Seq<Seq<char>>;

    /// Every branch name the decorations mention.
    fn branches(&self) -> (r: Vec<String>)
        ensures
            r@.len() == self.spec_branch_list().len(),
            forall|k: int| 0 <= k < r@.len() ==> (#[trigger] r@[k])@ == self.spec_branch_list()[k],
    ;
}

impl HasBranches for LogEntry {
    open spec fn spec_branch_list(&self) -> Seq<Seq<char>> {
        spec_local_branches(self@.decorations) + spec_remote_branches(self@.decorations).map_values(
            |p: (Seq<char>, Seq<char>)| p.1,
        )
    }

    fn branches(&self) -> (r: Vec<String>)
        ensures
            r@.len() == self.spec_branch_list().len(),
            forall|k: int| 0 <= k < r@.len() ==> (#[trigger] r@[k])@ == self.spec_branch_list()[k],
    {
        let mut out = self.local_branches();
        let remotes = self.remote_branches();
        let ghost locals_len = out@.len();
        let mut i: usize = 0;
        while i < remotes.len()
            invariant
                i <= remotes@.len(),
                locals_len == spec_local_branches(self@.decorations).len(),
                remotes@.len() == spec_remote_branches(self@.decorations).len(),
                forall|k: int|
                    0 <= k < remotes@.len() ==> ((#[trigger] remotes@[k]).0@, remotes@[k].1@)
                        == spec_remote_branches(self@.decorations)[k],
                out@.len() == locals_len + i,
                forall|k: int|
                    0 <= k < locals_len ==> (#[trigger] out@[k])@ == spec_local_branches(
                        self@.decorations,
                    )[k],
                forall|k: int|
                    locals_len <= k < out@.len() ==> (#[trigger] out@[k])@ == spec_remote_branches(
                        self@.decorations,
                    )[k - locals_len].1,
            decreases remotes@.len() - i,
        {
            out.push(remotes[i].1.clone());
            i += 1;
        }
        proof {
            assert forall|k: int|
                0 <= k < out@.len() implies (#[trigger] out@[k])@ == self.spec_branch_list()[k] by {
                if k >= locals_len {
                    assert(self.spec_branch_list()[k] == spec_remote_branches(
                        self@.decorations,
                    ).map_values(|p: (Seq<char>, Seq<char>)| p.1)[k - locals_len]);
                }
            }
        }
        out
    }
}


/// The tagged version carried by the earliest-stamped commit, folding
/// front to back and keeping the earliest timestamp (the first such
/// record on a tie).
pub open spec fn spec_earliest_tagged(s: Seq<LogEntryV>) -> Option<(u64, VersionV)>
    decreases s.len(),
{
    if s.len() == 0 {
        None
    } else {
        let prev = spec_earliest_tagged(s.drop_last());
        let e = s.last();
        match first_version_tag(e.decorations) {
            Some(v) => match prev {
                None => Some((e.commit_epoch, v)),
                Some(p) => if e.commit_epoch < p.0 {
                    Some((e.commit_epoch, v))
                } else {
                    prev
                },
            },
            None => prev,
        }
    }
}

/// The version-number format a concrete version number exhibits.
pub open spec fn spec_format_of_num(n: crate::version::VersionNumberV) -> crate::version_format::NumberFormatV {
    match n {
        crate::version::VersionNumberV::CCVer(_) => crate::version_format::NumberFormatV::CCVer,
        crate::version::VersionNumberV::CalVer(segs, _) => crate::version_format::NumberFormatV::CalVer(segs),
        crate::version::VersionNumberV::Sha(_) => crate::version_format::NumberFormatV::Sha,
        crate::version::VersionNumberV::ShortSha(_) => crate::version_format::NumberFormatV::ShortSha,
    }
}

/// The prerelease format a concrete prerelease tag exhibits.
pub open spec fn spec_format_of_pre(p: crate::version::PreTagV) -> crate::version_format::PreTagFormatV {
    match p {
        crate::version::PreTagV::Rc(n) => crate::version_format::PreTagFormatV::Rc(spec_format_of_num(n)),
        crate::version::PreTagV::Beta(n) => crate::version_format::PreTagFormatV::Beta(spec_format_of_num(n)),
        crate::version::PreTagV::Alpha(n) => crate::version_format::PreTagFormatV::Alpha(spec_format_of_num(n)),
        crate::version::PreTagV::Build(n) => crate::version_format::PreTagFormatV::Build(spec_format_of_num(n)),
        crate::version::PreTagV::Named(name, n) => crate::version_format::PreTagFormatV::Named(name, spec_format_of_num(n)),
        crate::version::PreTagV::Sha(_) => crate::version_format::PreTagFormatV::Sha,
        crate::version::PreTagV::ShortSha(_) => crate::version_format::PreTagFormatV::ShortSha,
    }
}

/// The version scheme a concrete version exhibits.
pub open spec fn spec_format_of_version(v: VersionV) -> crate::version_format::VersionFormatV {
    crate::version_format::VersionFormatV {
        v_prefix: v.v_prefix,
        major: spec_format_of_num(v.major),
        minor: spec_format_of_num(v.minor),
        patch: spec_format_of_num(v.patch),
        prerelease: match v.prerelease {
            Some(p) => Some(spec_format_of_pre(p)),
            None => None,
        },
    }
}

/// Reads the version-number format a concrete number exhibits.
fn format_of_num(n: &crate::version::VersionNumber) -> (r: crate::version_format::VersionNumberFormat)
    ensures
        r@ == spec_format_of_num(n@),
{
    match n {
        crate::version::VersionNumber::CCVer(_) => crate::version_format::VersionNumberFormat::CCVer,
        crate::version::VersionNumber::CalVer(segs, _) => crate::version_format::VersionNumberFormat::CalVer(
            crate::text::copy_vec(segs),
        ),
        crate::version::VersionNumber::Sha(_) => crate::version_format::VersionNumberFormat::Sha,
        crate::version::VersionNumber::ShortSha(_) => crate::version_format::VersionNumberFormat::ShortSha,
    }
}

/// Reads the scheme a concrete version exhibits.
pub fn format_of_version(v: &Version) -> (r: crate::version_format::VersionFormat)
    ensures
        r@ == spec_format_of_version(v@),
{
    crate::version_format::VersionFormat {
        v_prefix: v.v_prefix,
        major: format_of_num(&v.major),
        minor: format_of_num(&v.minor),
        patch: format_of_num(&v.patch),
        prerelease: match &v.prerelease {
            Some(crate::version::PreTag::Rc(n)) => Some(
                crate::version_format::PreTagFormat::Rc(format_of_num(n)),
            ),
            Some(crate::version::PreTag::Beta(n)) => Some(
                crate::version_format::PreTagFormat::Beta(format_of_num(n)),
            ),
            Some(crate::version::PreTag::Alpha(n)) => Some(
                crate::version_format::PreTagFormat::Alpha(format_of_num(n)),
            ),
            Some(crate::version::PreTag::Build(n)) => Some(
                crate::version_format::PreTagFormat::Build(format_of_num(n)),
            ),
            Some(crate::version::PreTag::Named(name, n)) => Some(
                crate::version_format::PreTagFormat::Named(name.clone(), format_of_num(n)),
            ),
            Some(crate::version::PreTag::Sha(_)) => Some(crate::version_format::PreTagFormat::Sha),
            Some(crate::version::PreTag::ShortSha(_)) => Some(
                crate::version_format::PreTagFormat::ShortSha,
            ),
            None => None,
        },
    }
}

/// Something a version scheme can be inferred from.
pub trait InfersVersionFormat {
    /// The inferred scheme, mathematically.
    spec fn spec_inferred_format(&self) -> crate::version_format::VersionFormatV;

    /// Infers the version scheme: the scheme of the earliest-stamped
    /// version tag in the history, or the default scheme where no commit
    /// carries one.
    fn infer_version_format(&self) -> (r: crate::version_format::VersionFormat)
        ensures
            r@ == self.spec_inferred_format(),
    ;
}

impl InfersVersionFormat for Logs {
    open spec fn spec_inferred_format(&self) -> crate::version_format::VersionFormatV {
        match spec_earliest_tagged(self@) {
            Some(p) => spec_format_of_version(p.1),
            None => crate::version_format::default_format_v(),
        }
    }

    #[verifier::loop_isolation(false)]
    fn infer_version_format(&self) -> (r: crate::version_format::VersionFormat)
        ensures
            r@ == self.spec_inferred_format(),
    {
        let mut best: Option<(u64, Version)> = None;
        let mut i: usize = 0;
        while i < self.entries.len()
            invariant
                i <= self.entries.len(),
                match &best {
                    Some(b) => spec_earliest_tagged(self@.take(i as int)) == Some((b.0, b.1@)),
                    None => spec_earliest_tagged(self@.take(i as int)) is None,
                },
            decreases self.entries.len() - i,
        {
            proof {
                assert(self@.take(i + 1).drop_last() =~= self@.take(i as int));
                assert(self@.take(i + 1).last() == self@[i as int]);
            }
            let e = &self.entries[i];
            proof {
                assert(e@ == self@[i as int]);
            }
            match e.as_tagged_version() {
                Some(v) => {
                    let replace = match &best {
                        None => true,
                        Some(b) => e.commit_epoch < b.0,
                    };
                    if replace {
                        best = Some((e.commit_epoch, v.dup()));
                    }
                },
                None => {},
            }
            i += 1;
        }
        proof {
            assert(self@.take(self.entries.len() as int) =~= self@);
        }
        match &best {
            Some(b) => format_of_version(&b.1),
            None => crate::version_format::VersionFormat::default(),
        }
    }
}

} // verus!
