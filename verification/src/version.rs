//! The version algebra: version numbers, prerelease tags and full
//! versions, with their well-formedness conditions and their ordering.
//!
//! Only like representations compare: a sequential counter never compares
//! to a calendar number, and calendar numbers compare only under the same
//! segment list.  Comparing across representations is reported as
//! `IncomparableVersionNumbers`, never silently defaulted.
//!
//! The ordering of the prerelease slot follows the rule that a clean
//! release outranks every prerelease channel except `build`: build
//! metadata marks a commit *past* the release it is built from, so
//! `1.2.3-build.0` sorts above `1.2.3`, while `1.2.3-rc.1` sorts below.

use crate::error::CcError;
use crate::logs::LogEntry;
use crate::logs::LogEntryV;
use crate::text::streq;
use crate::version_format::CalVerFormatSegment;
use crate::version_format::CalVerFormat;
use crate::version_format::NumberFormatV;
use crate::version_format::VersionFormatV;
use crate::version_format::PreTagFormatV;
use crate::version_format::calver_format_wf;
use crate::Order;
use vstd::prelude::*;

verus! {

/// Whether a character is a lowercase hexadecimal digit.
pub open spec fn is_lower_hex_char(c: char) -> bool {
    (48 <= c as u32 <= 57) || (97 <= c as u32 <= 102)
}

/// A full forty-digit commit hash.
pub open spec fn is_full_hash(s: Seq<char>) -> bool {
    s.len() == 40 && forall|i: int| 0 <= i < s.len() ==> is_lower_hex_char(#[trigger] s[i])
}

/// A seven-digit short commit hash.
pub open spec fn is_short_hash(s: Seq<char>) -> bool {
    s.len() == 7 && forall|i: int| 0 <= i < s.len() ==> is_lower_hex_char(#[trigger] s[i])
}

/// Mathematical view of a `VersionNumber`.
#[verifier::ext_equal]
pub enum VersionNumberV {
    CCVer(u64),
    CalVer(Seq<CalVerFormatSegment>, Seq<u64>),
    Sha(Seq<char>),
    ShortSha(Seq<char>),
}

impl VersionNumberV {
    /// Well-formedness of one version number.
    pub open spec fn wf(self) -> bool {
        match self {
            VersionNumberV::CCVer(_) => true,
            VersionNumberV::CalVer(segs, vals) => {
                &&& calver_format_wf(segs)
                &&& vals.len() == segs.len()
                &&& forall|i: int|
                    0 <= i < segs.len() ==> #[trigger] segs[i].spec_value_in_range(vals[i])
            },
            VersionNumberV::Sha(s) => is_full_hash(s),
            VersionNumberV::ShortSha(s) => is_short_hash(s),
        }
    }

    /// Whether this number is governed by the given slot format.
    pub open spec fn fits(self, f: NumberFormatV) -> bool {
        match (self, f) {
            (VersionNumberV::CCVer(_), NumberFormatV::CCVer) => true,
            (VersionNumberV::CalVer(segs, _), NumberFormatV::CalVer(fsegs)) => segs == fsegs,
            (VersionNumberV::Sha(_), NumberFormatV::Sha) => true,
            (VersionNumberV::ShortSha(_), NumberFormatV::ShortSha) => true,
            _ => false,
        }
    }

    /// Whether two numbers share a representation, so that their order is
    /// defined at all.
    pub open spec fn comparable(self, other: Self) -> bool {
        match (self, other) {
            (VersionNumberV::CCVer(_), VersionNumberV::CCVer(_)) => true,
            (VersionNumberV::CalVer(s1, _), VersionNumberV::CalVer(s2, _)) => s1 == s2,
            (VersionNumberV::Sha(_), VersionNumberV::Sha(_)) => true,
            (VersionNumberV::ShortSha(_), VersionNumberV::ShortSha(_)) => true,
            _ => false,
        }
    }
}

/// Three-way comparison of two integers.
pub open spec fn spec_cmp_int(a: int, b: int) -> Order {
    if a < b {
        Order::Less
    } else if a == b {
        Order::Equal
    } else {
        Order::Greater
    }
}

/// Lexicographic comparison of two character sequences, by scalar value.
pub open spec fn spec_str_cmp(a: Seq<char>, b: Seq<char>) -> Order
    decreases a.len(),
{
    if a.len() == 0 && b.len() == 0 {
        Order::Equal
    } else if a.len() == 0 {
        Order::Less
    } else if b.len() == 0 {
        Order::Greater
    } else if (a[0] as u32) < (b[0] as u32) {
        Order::Less
    } else if (a[0] as u32) > (b[0] as u32) {
        Order::Greater
    } else {
        spec_str_cmp(a.drop_first(), b.drop_first())
    }
}

/// Lexicographic comparison of two number sequences.
pub open spec fn spec_lex_cmp(a: Seq<u64>, b: Seq<u64>) -> Order
    decreases a.len(),
{
    if a.len() == 0 && b.len() == 0 {
        Order::Equal
    } else if a.len() == 0 {
        Order::Less
    } else if b.len() == 0 {
        Order::Greater
    } else if a[0] < b[0] {
        Order::Less
    } else if a[0] > b[0] {
        Order::Greater
    } else {
        spec_lex_cmp(a.drop_first(), b.drop_first())
    }
}

/// The order of two comparable version numbers.  Sequential counters
/// compare as integers; calendar numbers under one segment list compare
/// segment-wise, most significant first; hashes compare lexicographically.
pub open spec fn spec_num_cmp(a: VersionNumberV, b: VersionNumberV) -> Order {
    match (a, b) {
        (VersionNumberV::CCVer(x), VersionNumberV::CCVer(y)) => spec_cmp_int(x as int, y as int),
        (VersionNumberV::CalVer(_, v1), VersionNumberV::CalVer(_, v2)) => spec_lex_cmp(v1, v2),
        (VersionNumberV::Sha(s1), VersionNumberV::Sha(s2)) => spec_str_cmp(s1, s2),
        (VersionNumberV::ShortSha(s1), VersionNumberV::ShortSha(s2)) => spec_str_cmp(s1, s2),
        _ => Order::Equal,
    }
}

/// The partial order of version numbers as the prerelease slot sees it:
/// hash numbers have no order there, and numbers of different
/// representations have none either.
pub open spec fn spec_num_partial_cmp(a: VersionNumberV, b: VersionNumberV) -> Option<Order> {
    match (a, b) {
        (VersionNumberV::CCVer(x), VersionNumberV::CCVer(y)) => Some(
            spec_cmp_int(x as int, y as int),
        ),
        (VersionNumberV::CalVer(s1, v1), VersionNumberV::CalVer(s2, v2)) => if s1 == s2 {
            Some(spec_lex_cmp(v1, v2))
        } else {
            None
        },
        _ => None,
    }
}

/// Mathematical view of a `PreTag`.
#[verifier::ext_equal]
pub enum PreTagV {
    Rc(VersionNumberV),
    Beta(VersionNumberV),
    Alpha(VersionNumberV),
    Build(VersionNumberV),
    Named(Seq<char>, VersionNumberV),
    Sha(VersionNumberV),
    ShortSha(VersionNumberV),
}

impl PreTagV {
    /// Precedence of the four fixed channels; the named and hash forms
    /// have none.
    pub open spec fn channel_rank(self) -> Option<int> {
        match self {
            PreTagV::Rc(_) => Some(3int),
            PreTagV::Beta(_) => Some(2int),
            PreTagV::Alpha(_) => Some(1int),
            PreTagV::Build(_) => Some(0int),
            _ => None,
        }
    }

    /// The counter inside the tag.
    pub open spec fn number(self) -> VersionNumberV {
        match self {
            PreTagV::Rc(n) => n,
            PreTagV::Beta(n) => n,
            PreTagV::Alpha(n) => n,
            PreTagV::Build(n) => n,
            PreTagV::Named(_, n) => n,
            PreTagV::Sha(n) => n,
            PreTagV::ShortSha(n) => n,
        }
    }

    /// Well-formedness of a prerelease tag.
    pub open spec fn wf(self) -> bool {
        match self {
            PreTagV::Sha(n) => n.wf() && n is Sha,
            PreTagV::ShortSha(n) => n.wf() && n is ShortSha,
            _ => self.number().wf(),
        }
    }
}

/// The partial order of prerelease tags: among the four fixed channels,
/// `rc` outranks `beta` outranks `alpha` outranks `build`; within a
/// channel the counters compare; a named channel compares only to itself
/// under the same name; hash metadata compares to nothing.
pub open spec fn spec_pre_partial_cmp(a: PreTagV, b: PreTagV) -> Option<Order> {
    match (a.channel_rank(), b.channel_rank()) {
        (Some(ra), Some(rb)) => if ra < rb {
            Some(Order::Less)
        } else if ra > rb {
            Some(Order::Greater)
        } else {
            spec_num_partial_cmp(a.number(), b.number())
        },
        _ => match (a, b) {
            (PreTagV::Named(n1, v1), PreTagV::Named(n2, v2)) => if n1 == n2 {
                spec_num_partial_cmp(v1, v2)
            } else {
                None
            },
            _ => None,
        },
    }
}

/// Mathematical view of a `Version`.
#[verifier::ext_equal]
pub struct VersionV {
    pub v_prefix: bool,
    pub major: VersionNumberV,
    pub minor: VersionNumberV,
    pub patch: VersionNumberV,
    pub prerelease: Option<PreTagV>,
}

impl VersionV {
    /// Well-formedness of a full version.
    pub open spec fn wf(self) -> bool {
        &&& self.major.wf()
        &&& self.minor.wf()
        &&& self.patch.wf()
        &&& match self.prerelease {
            Some(p) => p.wf(),
            None => true,
        }
    }

    /// Whether the major, minor and patch slots of two versions pairwise
    /// share a representation, so the versions can be ordered.
    pub open spec fn comparable(self, other: Self) -> bool {
        &&& self.major.comparable(other.major)
        &&& self.minor.comparable(other.minor)
        &&& self.patch.comparable(other.patch)
        &&& match (self.prerelease, other.prerelease) {
            (Some(PreTagV::Build(x)), Some(PreTagV::Build(y))) => x.comparable(y),
            _ => true,
        }
    }

    /// Which number format governs the prerelease counters that a scheme
    /// can read back: a scheme without a prerelease slot reads sequential
    /// counters; a hash-metadata scheme reads no channel counter at all.
    pub open spec fn fits(self, f: VersionFormatV) -> bool {
        &&& self.major.fits(f.major)
        &&& self.minor.fits(f.minor)
        &&& self.patch.fits(f.patch)
        &&& match self.prerelease {
            None => true,
            Some(PreTagV::Sha(n)) => n is Sha,
            Some(PreTagV::ShortSha(n)) => n is ShortSha,
            Some(p) => match pre_counter_format(f) {
                Some(nf) => p.number().fits(nf),
                None => false,
            },
        }
    }
}

/// The number format that the scheme's prerelease channel counters carry:
/// the declared channel's number format, a sequential counter where the
/// scheme declares no prerelease, and none at all where the prerelease
/// slot is hash metadata.
pub open spec fn pre_counter_format(f: VersionFormatV) -> Option<NumberFormatV> {
    match f.prerelease {
        None => Some(NumberFormatV::CCVer),
        Some(PreTagFormatV::Sha) => None,
        Some(PreTagFormatV::ShortSha) => None,
        Some(p) => Some(p.version_format()),
    }
}

/// The order of two versions, or `None` where their representations do
/// not admit one.  Major, minor and patch decide in turn; on a tie the
/// prerelease slot decides: no prerelease outranks every channel except
/// `build`, which outranks no-prerelease; two prerelease tags that do not
/// compare to each other tie.
pub open spec fn spec_version_cmp(a: VersionV, b: VersionV) -> Option<Order> {
    if !a.comparable(b) {
        None
    } else if spec_num_cmp(a.major, b.major) != Order::Equal {
        Some(spec_num_cmp(a.major, b.major))
    } else if spec_num_cmp(a.minor, b.minor) != Order::Equal {
        Some(spec_num_cmp(a.minor, b.minor))
    } else if spec_num_cmp(a.patch, b.patch) != Order::Equal {
        Some(spec_num_cmp(a.patch, b.patch))
    } else {
        match (a.prerelease, b.prerelease) {
            (None, None) => Some(Order::Equal),
            (Some(PreTagV::Build(x)), None) => Some(Order::Greater),
            (None, Some(PreTagV::Build(y))) => Some(Order::Less),
            (Some(PreTagV::Build(x)), Some(PreTagV::Build(y))) => Some(spec_num_cmp(x, y)),
            (Some(_), None) => Some(Order::Less),
            (None, Some(_)) => Some(Order::Greater),
            (Some(x), Some(y)) => match spec_pre_partial_cmp(x, y) {
                Some(o) => Some(o),
                None => Some(Order::Equal),
            },
        }
    }
}

/// A version number: a sequential counter, a calendar reading of a commit
/// timestamp, or a commit hash.
#[derive(Clone, Debug)]
pub enum VersionNumber {
    /// A plain incrementing counter.
    CCVer(u64),
    /// A calendar number: the governing segments and the value each
    /// segment took from the commit timestamp, in the same order.
    CalVer(CalVerFormat, Vec<u64>),
    /// A full forty-digit commit hash.
    Sha(String),
    /// A seven-digit short commit hash.
    ShortSha(String),
}

impl View for VersionNumber {
    type V = VersionNumberV;

    open spec fn view(&self) -> VersionNumberV {
        match self {
            VersionNumber::CCVer(n) => VersionNumberV::CCVer(*n),
            VersionNumber::CalVer(segs, vals) => VersionNumberV::CalVer(segs@, vals@),
            VersionNumber::Sha(s) => VersionNumberV::Sha(s@),
            VersionNumber::ShortSha(s) => VersionNumberV::ShortSha(s@),
        }
    }
}

/// A prerelease tag: a channel with its counter, or opaque hash metadata.
#[derive(Clone, Debug)]
pub enum PreTag {
    /// Release-candidate channel.
    Rc(VersionNumber),
    /// Beta channel.
    Beta(VersionNumber),
    /// Alpha channel.
    Alpha(VersionNumber),
    /// Build channel.
    Build(VersionNumber),
    /// A custom channel under its own name.
    Named(String, VersionNumber),
    /// The full commit hash as build metadata.
    Sha(VersionNumber),
    /// The short commit hash as build metadata.
    ShortSha(VersionNumber),
}

impl View for PreTag {
    type V = PreTagV;

    open spec fn view(&self) -> PreTagV {
        match self {
            PreTag::Rc(n) => PreTagV::Rc(n@),
            PreTag::Beta(n) => PreTagV::Beta(n@),
            PreTag::Alpha(n) => PreTagV::Alpha(n@),
            PreTag::Build(n) => PreTagV::Build(n@),
            PreTag::Named(name, n) => PreTagV::Named(name@, n@),
            PreTag::Sha(n) => PreTagV::Sha(n@),
            PreTag::ShortSha(n) => PreTagV::ShortSha(n@),
        }
    }
}

/// A full version: an optional display prefix, the three number slots and
/// an optional prerelease tag.
#[derive(Clone, Debug)]
pub struct Version {
    /// Whether the version renders with a leading `v`.
    pub v_prefix: bool,
    /// The major slot.
    pub major: VersionNumber,
    /// The minor slot.
    pub minor: VersionNumber,
    /// The patch slot.
    pub patch: VersionNumber,
    /// The prerelease slot.
    pub prerelease: Option<PreTag>,
}

impl View for Version {
    type V = VersionV;

    open spec fn view(&self) -> VersionV {
        VersionV {
            v_prefix: self.v_prefix,
            major: self.major@,
            minor: self.minor@,
            patch: self.patch@,
            prerelease: match &self.prerelease {
                Some(p) => Some(p@),
                None => None,
            },
        }
    }
}

/// Three-way comparison of two counters.
fn cmp_u64(a: u64, b: u64) -> (r: Order)
    ensures
        r == spec_cmp_int(a as int, b as int),
{
    if a < b {
        Order::Less
    } else if a == b {
        Order::Equal
    } else {
        Order::Greater
    }
}

/// Equal prefixes leave a lexicographic string comparison unchanged.
proof fn lemma_str_cmp_skip(a: Seq<char>, b: Seq<char>, i: int)
    requires
        0 <= i <= a.len(),
        i <= b.len(),
        forall|j: int| 0 <= j < i ==> a[j] == b[j],
    ensures
        spec_str_cmp(a, b) == spec_str_cmp(a.skip(i), b.skip(i)),
    decreases i,
{
    if i > 0 {
        assert(a.len() > 0 && b.len() > 0);
        assert(a[0] == b[0]);
        lemma_str_cmp_skip(a.drop_first(), b.drop_first(), i - 1);
        assert(a.drop_first().skip(i - 1) =~= a.skip(i));
        assert(b.drop_first().skip(i - 1) =~= b.skip(i));
    } else {
        assert(a.skip(0) =~= a);
        assert(b.skip(0) =~= b);
    }
}

/// Equal prefixes leave a lexicographic number comparison unchanged.
proof fn lemma_lex_cmp_skip(a: Seq<u64>, b: Seq<u64>, i: int)
    requires
        0 <= i <= a.len(),
        i <= b.len(),
        forall|j: int| 0 <= j < i ==> a[j] == b[j],
    ensures
        spec_lex_cmp(a, b) == spec_lex_cmp(a.skip(i), b.skip(i)),
    decreases i,
{
    if i > 0 {
        assert(a.len() > 0 && b.len() > 0);
        assert(a[0] == b[0]);
        lemma_lex_cmp_skip(a.drop_first(), b.drop_first(), i - 1);
        assert(a.drop_first().skip(i - 1) =~= a.skip(i));
        assert(b.drop_first().skip(i - 1) =~= b.skip(i));
    } else {
        assert(a.skip(0) =~= a);
        assert(b.skip(0) =~= b);
    }
}

/// Lexicographic comparison of two strings.
fn str_cmp(a: &str, b: &str) -> (r: Order)
    ensures
        r == spec_str_cmp(a@, b@),
{
    let la = a.unicode_len();
    let lb = b.unicode_len();
    let mut i: usize = 0;
    loop
        invariant
            i <= la,
            i <= lb,
            la == a@.len(),
            lb == b@.len(),
            forall|j: int| 0 <= j < i ==> a@[j] == b@[j],
        decreases la - i,
    {
        if i == la || i == lb {
            proof {
                lemma_str_cmp_skip(a@, b@, i as int);
            }
            if la == lb {
                return Order::Equal;
            } else if i == la {
                return Order::Less;
            } else {
                return Order::Greater;
            }
        }
        let ca = a.get_char(i);
        let cb = b.get_char(i);
        if (ca as u32) < (cb as u32) {
            proof {
                lemma_str_cmp_skip(a@, b@, i as int);
                assert(a@.skip(i as int)[0] == a@[i as int]);
                assert(b@.skip(i as int)[0] == b@[i as int]);
            }
            return Order::Less;
        } else if (ca as u32) > (cb as u32) {
            proof {
                lemma_str_cmp_skip(a@, b@, i as int);
                assert(a@.skip(i as int)[0] == a@[i as int]);
                assert(b@.skip(i as int)[0] == b@[i as int]);
            }
            return Order::Greater;
        }
        proof {
            vstd::utf8::char_u32_cast(ca, ca as u32);
            vstd::utf8::char_u32_cast(cb, cb as u32);
            assert(ca == cb);
        }
        i += 1;
    }
}

/// Lexicographic comparison of two counter vectors.
fn lex_cmp(a: &Vec<u64>, b: &Vec<u64>) -> (r: Order)
    ensures
        r == spec_lex_cmp(a@, b@),
{
    let mut i: usize = 0;
    loop
        invariant
            i <= a.len(),
            i <= b.len(),
            forall|j: int| 0 <= j < i ==> a@[j] == b@[j],
        decreases a.len() - i,
    {
        if i == a.len() || i == b.len() {
            proof {
                lemma_lex_cmp_skip(a@, b@, i as int);
            }
            if a.len() == b.len() {
                return Order::Equal;
            } else if i == a.len() {
                return Order::Less;
            } else {
                return Order::Greater;
            }
        }
        if a[i] != b[i] {
            proof {
                lemma_lex_cmp_skip(a@, b@, i as int);
                assert(a@.skip(i as int)[0] == a@[i as int]);
                assert(b@.skip(i as int)[0] == b@[i as int]);
            }
            if a[i] < b[i] {
                return Order::Less;
            } else {
                return Order::Greater;
            }
        }
        i += 1;
    }
}

/// Whether two counter lists are equal.
pub fn u64_lists_equal(a: &Vec<u64>, b: &Vec<u64>) -> (r: bool)
    ensures
        r == (a@ == b@),
{
    if a.len() != b.len() {
        proof {
            if a@ == b@ {
                assert(a@.len() == b@.len());
            }
        }
        return false;
    }
    let mut i: usize = 0;
    while i < a.len()
        invariant
            i <= a.len(),
            a.len() == b.len(),
            forall|j: int| 0 <= j < i ==> a@[j] == b@[j],
        decreases a.len() - i,
    {
        if a[i] != b[i] {
            proof {
                if a@ == b@ {
                    assert(a@[i as int] == b@[i as int]);
                }
            }
            return false;
        }
        i += 1;
    }
    proof {
        assert(a@ =~= b@);
    }
    true
}

/// Whether two segment lists are equal.
pub fn seg_lists_equal(a: &Vec<CalVerFormatSegment>, b: &Vec<CalVerFormatSegment>) -> (r: bool)
    ensures
        r == (a@ == b@),
{
    if a.len() != b.len() {
        proof {
            if a@ == b@ {
                assert(a@.len() == b@.len());
            }
        }
        return false;
    }
    let mut i: usize = 0;
    while i < a.len()
        invariant
            i <= a.len(),
            a.len() == b.len(),
            forall|j: int| 0 <= j < i ==> a@[j] == b@[j],
        decreases a.len() - i,
    {
        if a[i] != b[i] {
            proof {
                if a@ == b@ {
                    assert(a@[i as int] == b@[i as int]);
                }
            }
            return false;
        }
        i += 1;
    }
    proof {
        assert(a@ =~= b@);
    }
    true
}

impl VersionNumber {
    /// Whether this number and the other share a representation.
    pub fn comparable_to(&self, other: &VersionNumber) -> (r: bool)
        ensures
            r == self@.comparable(other@),
    {
        match (self, other) {
            (VersionNumber::CCVer(_), VersionNumber::CCVer(_)) => true,
            (VersionNumber::CalVer(s1, _), VersionNumber::CalVer(s2, _)) => seg_lists_equal(s1, s2),
            (VersionNumber::Sha(_), VersionNumber::Sha(_)) => true,
            (VersionNumber::ShortSha(_), VersionNumber::ShortSha(_)) => true,
            _ => false,
        }
    }

    /// The order of two comparable numbers.
    pub fn cmp_with(&self, other: &VersionNumber) -> (r: Order)
        requires
            self@.comparable(other@),
        ensures
            r == spec_num_cmp(self@, other@),
    {
        match (self, other) {
            (VersionNumber::CCVer(x), VersionNumber::CCVer(y)) => cmp_u64(*x, *y),
            (VersionNumber::CalVer(_, v1), VersionNumber::CalVer(_, v2)) => lex_cmp(v1, v2),
            (VersionNumber::Sha(s1), VersionNumber::Sha(s2)) => str_cmp(s1.as_str(), s2.as_str()),
            (VersionNumber::ShortSha(s1), VersionNumber::ShortSha(s2)) => str_cmp(
                s1.as_str(),
                s2.as_str(),
            ),
            _ => Order::Equal,
        }
    }

    /// The partial order of two numbers as the prerelease slot sees it.
    pub fn partial_cmp_with(&self, other: &VersionNumber) -> (r: Option<Order>)
        ensures
            r == spec_num_partial_cmp(self@, other@),
    {
        match (self, other) {
            (VersionNumber::CCVer(x), VersionNumber::CCVer(y)) => Some(cmp_u64(*x, *y)),
            (VersionNumber::CalVer(s1, v1), VersionNumber::CalVer(s2, v2)) => {
                if seg_lists_equal(s1, s2) {
                    Some(lex_cmp(v1, v2))
                } else {
                    None
                }
            },
            _ => None,
        }
    }
}

impl PreTag {
    /// The counter inside the tag.
    pub fn number(&self) -> (r: &VersionNumber)
        ensures
            r@ == self@.number(),
    {
        match self {
            PreTag::Rc(n) => n,
            PreTag::Beta(n) => n,
            PreTag::Alpha(n) => n,
            PreTag::Build(n) => n,
            PreTag::Named(_, n) => n,
            PreTag::Sha(n) => n,
            PreTag::ShortSha(n) => n,
        }
    }

    /// The partial order of two prerelease tags.
    pub fn partial_cmp_with(&self, other: &PreTag) -> (r: Option<Order>)
        ensures
            r == spec_pre_partial_cmp(self@, other@),
    {
        let ra: i32 = match self {
            PreTag::Rc(_) => 3,
            PreTag::Beta(_) => 2,
            PreTag::Alpha(_) => 1,
            PreTag::Build(_) => 0,
            _ => -1,
        };
        let rb: i32 = match other {
            PreTag::Rc(_) => 3,
            PreTag::Beta(_) => 2,
            PreTag::Alpha(_) => 1,
            PreTag::Build(_) => 0,
            _ => -1,
        };
        if ra >= 0 && rb >= 0 {
            if ra < rb {
                Some(Order::Less)
            } else if ra > rb {
                Some(Order::Greater)
            } else {
                self.number().partial_cmp_with(other.number())
            }
        } else {
            match (self, other) {
                (PreTag::Named(n1, v1), PreTag::Named(n2, v2)) => {
                    if streq(n1.as_str(), n2.as_str()) {
                        v1.partial_cmp_with(v2)
                    } else {
                        None
                    }
                },
                _ => None,
            }
        }
    }
}

impl Version {
    /// Whether this version and the other can be ordered at all.
    pub fn comparable_to(&self, other: &Version) -> (r: bool)
        ensures
            r == self@.comparable(other@),
    {
        let slots = self.major.comparable_to(&other.major) && self.minor.comparable_to(&other.minor)
            && self.patch.comparable_to(&other.patch);
        if !slots {
            return false;
        }
        match (&self.prerelease, &other.prerelease) {
            (Some(PreTag::Build(x)), Some(PreTag::Build(y))) => x.comparable_to(y),
            _ => true,
        }
    }

    /// The order of two versions; an error where their representations do
    /// not admit one.
    pub fn compare(&self, other: &Version) -> (r: Result<Order, CcError>)
        ensures
            match r {
                Ok(o) => spec_version_cmp(self@, other@) == Some(o),
                Err(e) => spec_version_cmp(self@, other@) is None
                    && e == CcError::IncomparableVersionNumbers,
            },
{
        if !self.comparable_to(other) {
            return Err(CcError::IncomparableVersionNumbers);
        }
        let o = self.major.cmp_with(&other.major);
        if !matches!(o, Order::Equal) {
            return Ok(o);
        }
        let o = self.minor.cmp_with(&other.minor);
        if !matches!(o, Order::Equal) {
            return Ok(o);
        }
        let o = self.patch.cmp_with(&other.patch);
        if !matches!(o, Order::Equal) {
            return Ok(o);
        }
        match (&self.prerelease, &other.prerelease) {
            (None, None) => Ok(Order::Equal),
            (Some(PreTag::Build(_)), None) => Ok(Order::Greater),
            (None, Some(PreTag::Build(_))) => Ok(Order::Less),
            (Some(PreTag::Build(x)), Some(PreTag::Build(y))) => Ok(x.cmp_with(y)),
            (Some(_), None) => Ok(Order::Less),
            (None, Some(_)) => Ok(Order::Greater),
            (Some(x), Some(y)) => match x.partial_cmp_with(y) {
                Some(o) => Ok(o),
                None => Ok(Order::Equal),
            },
        }
    }

    /// The same version without its prerelease tag.
    pub fn no_pre(&self) -> (r: Version)
        ensures
            r@ == (VersionV { prerelease: None, ..self@ }),
    {
        Version {
            v_prefix: self.v_prefix,
            major: self.major.dup(),
            minor: self.minor.dup(),
            patch: self.patch.dup(),
            prerelease: None,
        }
    }
}

impl VersionNumber {
    /// A copy with the same view.
    pub fn dup(&self) -> (r: VersionNumber)
        ensures
            r@ == self@,
    {
        match self {
            VersionNumber::CCVer(n) => VersionNumber::CCVer(*n),
            VersionNumber::CalVer(segs, vals) => VersionNumber::CalVer(
                crate::text::copy_vec(segs),
                crate::text::copy_vec(vals),
            ),
            VersionNumber::Sha(s) => VersionNumber::Sha(s.clone()),
            VersionNumber::ShortSha(s) => VersionNumber::ShortSha(s.clone()),
        }
    }
}

impl PreTag {
    /// A copy with the same view.
    pub fn dup(&self) -> (r: PreTag)
        ensures
            r@ == self@,
    {
        match self {
            PreTag::Rc(n) => PreTag::Rc(n.dup()),
            PreTag::Beta(n) => PreTag::Beta(n.dup()),
            PreTag::Alpha(n) => PreTag::Alpha(n.dup()),
            PreTag::Build(n) => PreTag::Build(n.dup()),
            PreTag::Named(name, n) => PreTag::Named(name.clone(), n.dup()),
            PreTag::Sha(n) => PreTag::Sha(n.dup()),
            PreTag::ShortSha(n) => PreTag::ShortSha(n.dup()),
        }
    }
}

/// A plain sequential version: every slot a counter, no prerelease.
pub open spec fn is_plain_seq(v: VersionV) -> bool {
    &&& v.major is CCVer
    &&& v.minor is CCVer
    &&& v.patch is CCVer
    &&& v.prerelease is None
}

/// A plain sequential version whose counters have room to grow.
pub open spec fn is_plain_seq_below_top(v: VersionV) -> bool {
    &&& is_plain_seq(v)
    &&& v.major->CCVer_0 < 0xffff_ffff_ffff_ffffu64
    &&& v.minor->CCVer_0 < 0xffff_ffff_ffff_ffffu64
    &&& v.patch->CCVer_0 < 0xffff_ffff_ffff_ffffu64
}

/// Plain sequential versions compare totally: the comparison is defined
/// both ways, and the two directions mirror each other.
pub proof fn lemma_plain_cmp_total(a: VersionV, b: VersionV)
    requires
        is_plain_seq(a),
        is_plain_seq(b),
    ensures
        spec_version_cmp(a, b) is Some,
        spec_version_cmp(a, b) == Some(Order::Less) <==> spec_version_cmp(b, a) == Some(
            Order::Greater,
        ),
        spec_version_cmp(a, b) == Some(Order::Equal) <==> spec_version_cmp(b, a) == Some(
            Order::Equal,
        ),
{
}

/// Plain sequential versions compare transitively: at-or-above is
/// preserved along a chain.
pub proof fn lemma_plain_cmp_trans(a: VersionV, b: VersionV, c: VersionV)
    requires
        is_plain_seq(a),
        is_plain_seq(b),
        is_plain_seq(c),
        spec_version_cmp(a, b) != Some(Order::Less),
        spec_version_cmp(b, c) != Some(Order::Less),
    ensures
        spec_version_cmp(a, c) is Some,
        spec_version_cmp(a, c) != Some(Order::Less),
{
}

/// Monotonicity of version advancement.  Over sequential (counter)
/// slots that have room to grow, the version a commit derives from the
/// maximum of its ancestors' versions never falls below that maximum
/// when the commit's subject is version-advancing: so along every edge
/// of the graph, and in particular across both parents of a merge, an
/// advancing child's version stays at or above its parents'.
pub proof fn lemma_advancing_step_monotone(v: VersionV, e: LogEntryV, f: VersionFormatV)
    requires
        v.major matches VersionNumberV::CCVer(x) && x < 0xffff_ffff_ffff_ffffu64,
        v.minor matches VersionNumberV::CCVer(x) && x < 0xffff_ffff_ffff_ffffu64,
        v.patch matches VersionNumberV::CCVer(x) && x < 0xffff_ffff_ffff_ffffu64,
        crate::logs::spec_is_advancing(e.subject),
    ensures
        spec_version_cmp(spec_next_version(v, e, f), v) == Some(Order::Greater),
{
    let next = spec_next_version(v, e, f);
    assert(next.comparable(v));
}

/// Prerelease precedence.  For versions whose major, minor and patch
/// slots tie, the fixed channels order `rc > beta > alpha > build`; a
/// version without a prerelease outranks every prerelease except `build`,
/// and a `build` prerelease outranks no-prerelease.
pub proof fn lemma_prerelease_precedence(a: VersionV, b: VersionV)
    requires
        a.comparable(b),
        spec_num_cmp(a.major, b.major) == Order::Equal,
        spec_num_cmp(a.minor, b.minor) == Order::Equal,
        spec_num_cmp(a.patch, b.patch) == Order::Equal,
    ensures
        (a.prerelease matches Some(PreTagV::Rc(_)) && b.prerelease matches Some(PreTagV::Beta(_)))
            ==> spec_version_cmp(a, b) == Some(Order::Greater),
        (a.prerelease matches Some(PreTagV::Beta(_)) && b.prerelease matches Some(
            PreTagV::Alpha(_),
        )) ==> spec_version_cmp(a, b) == Some(Order::Greater),
        (a.prerelease matches Some(PreTagV::Alpha(_)) && b.prerelease matches Some(
            PreTagV::Build(_),
        )) ==> spec_version_cmp(a, b) == Some(Order::Greater),
        (a.prerelease is None && (b.prerelease matches Some(p) && !(p is Build)))
            ==> spec_version_cmp(a, b) == Some(Order::Greater),
        (a.prerelease matches Some(PreTagV::Build(_)) && b.prerelease is None)
            ==> spec_version_cmp(a, b) == Some(Order::Greater),
{
}

/// The values a segment list takes from a calendar stamp, in order.
pub open spec fn spec_seg_values(
    segs: Seq<CalVerFormatSegment>,
    stamp: crate::time::CalendarStamp,
) -> Seq<u64> {
    Seq::new(segs.len(), |i: int| segs[i].spec_value_of(stamp))
}

/// Reads the values of a segment list out of a calendar stamp.
fn seg_values(segs: &Vec<CalVerFormatSegment>, stamp: &crate::time::CalendarStamp) -> (r: Vec<u64>)
    ensures
        r@ == spec_seg_values(segs@, *stamp),
{
    let mut out: Vec<u64> = Vec::new();
    let mut i: usize = 0;
    while i < segs.len()
        invariant
            i <= segs.len(),
            out@ =~= spec_seg_values(segs@, *stamp).subrange(0, i as int),
        decreases segs.len() - i,
    {
        out.push(segs[i].value_of(stamp));
        i += 1;
    }
    proof {
        assert(out@ =~= spec_seg_values(segs@, *stamp));
    }
    out
}

/// A full hash consists of ASCII characters.
pub proof fn lemma_full_hash_ascii(s: Seq<char>)
    requires
        is_full_hash(s),
    ensures
        vstd::utf8::is_ascii_chars(s),
{
    assert forall|i: int| 0 <= i < s.len() implies '\0' <= #[trigger] s[i] <= '\u{7f}' by {
        assert(is_lower_hex_char(s[i]));
        vstd::utf8::char_u32_cast(s[i], s[i] as u32);
        vstd::utf8::char_u32_cast('\0', '\0' as u32);
        vstd::utf8::char_u32_cast('\u{7f}', '\u{7f}' as u32);
    }
}

/// The seven leading digits of a full hash form a short hash.
pub proof fn lemma_short_of_full_hash(s: Seq<char>)
    requires
        is_full_hash(s),
    ensures
        is_short_hash(s.subrange(0, 7)),
{
    assert forall|i: int| 0 <= i < 7 implies is_lower_hex_char(#[trigger] s.subrange(0, 7)[i]) by {
        assert(s.subrange(0, 7)[i] == s[i]);
    }
}

/// The first seven digits of a commit hash.
pub fn short_hash_of(hash: &str) -> (r: String)
    requires
        is_full_hash(hash@),
    ensures
        r@ == hash@.subrange(0, 7),
        is_short_hash(r@),
{
    proof {
        lemma_full_hash_ascii(hash@);
        lemma_short_of_full_hash(hash@);
    }
    let s = hash.substring_ascii(0, 7);
    s.to_owned()
}

/// The spec of one sequential step: the counter grows by one.  At the
/// top of `u64` the counter saturates instead of wrapping or failing: a
/// deliberate choice, so that a bump never moves a counter backwards and
/// never panics, at the price of the very last count repeating.
pub open spec fn spec_succ(v: u64) -> u64 {
    if v < 0xffff_ffff_ffff_ffffu64 {
        (v + 1) as u64
    } else {
        v
    }
}

/// The bumped form of a version number: a sequential counter steps by
/// one; a calendar number re-reads the commit timestamp; a hash number
/// takes the commit's hash.  A calendar bump follows the commit's clock,
/// so it moves backwards when history carries out-of-order timestamps,
/// and a two-digit-year segment wraps at a century boundary: calendar
/// numbers are only as monotone as the clocks behind them.
pub open spec fn spec_num_bump(n: VersionNumberV, e: LogEntryV) -> VersionNumberV {
    match n {
        VersionNumberV::CCVer(v) => VersionNumberV::CCVer(spec_succ(v)),
        VersionNumberV::CalVer(segs, _) => VersionNumberV::CalVer(
            segs,
            spec_seg_values(segs, crate::time::civil_of(e.commit_epoch)),
        ),
        VersionNumberV::Sha(_) => VersionNumberV::Sha(e.commit_hash),
        VersionNumberV::ShortSha(_) => VersionNumberV::ShortSha(e.commit_hash.subrange(0, 7)),
    }
}

/// The carried-over form of a version number: a sequential counter stays;
/// the others follow the commit as under a bump.
pub open spec fn spec_num_peek(n: VersionNumberV, e: LogEntryV) -> VersionNumberV {
    match n {
        VersionNumberV::CCVer(v) => VersionNumberV::CCVer(v),
        _ => spec_num_bump(n, e),
    }
}

/// The zeroed form of a version number: a sequential counter restarts at
/// zero; the others follow the commit as under a bump.
pub open spec fn spec_num_zero(n: VersionNumberV, e: LogEntryV) -> VersionNumberV {
    match n {
        VersionNumberV::CCVer(_) => VersionNumberV::CCVer(0),
        _ => spec_num_bump(n, e),
    }
}

/// The starting value of a slot under a given format.
pub open spec fn spec_default_num(f: NumberFormatV, e: LogEntryV) -> VersionNumberV {
    match f {
        NumberFormatV::CCVer => VersionNumberV::CCVer(0),
        NumberFormatV::CalVer(segs) => VersionNumberV::CalVer(
            segs,
            spec_seg_values(segs, crate::time::civil_of(e.commit_epoch)),
        ),
        NumberFormatV::Sha => VersionNumberV::Sha(e.commit_hash),
        NumberFormatV::ShortSha => VersionNumberV::ShortSha(e.commit_hash.subrange(0, 7)),
    }
}

impl VersionNumber {
    /// The bumped form of this number at the given commit.
    pub fn bump(&self, commit: &LogEntry) -> (r: VersionNumber)
        requires
            commit@.wf(),
        ensures
            r@ == spec_num_bump(self@, commit@),
    {
        match self {
            VersionNumber::CCVer(v) => {
                if *v < u64::MAX {
                    VersionNumber::CCVer(*v + 1)
                } else {
                    VersionNumber::CCVer(*v)
                }
            },
            VersionNumber::CalVer(segs, _) => {
                let stamp = crate::time::civil_fields(commit.commit_epoch);
                let vals = seg_values(segs, &stamp);
                VersionNumber::CalVer(crate::text::copy_vec(segs), vals)
            },
            VersionNumber::Sha(_) => VersionNumber::Sha(commit.commit_hash.clone()),
            VersionNumber::ShortSha(_) => VersionNumber::ShortSha(
                short_hash_of(commit.commit_hash.as_str()),
            ),
        }
    }

    /// The carried-over form of this number at the given commit.
    pub fn peek(&self, commit: &LogEntry) -> (r: VersionNumber)
        requires
            commit@.wf(),
        ensures
            r@ == spec_num_peek(self@, commit@),
    {
        match self {
            VersionNumber::CCVer(v) => VersionNumber::CCVer(*v),
            _ => self.bump(commit),
        }
    }

    /// The zeroed form of this number at the given commit.
    pub fn zero(&self, commit: &LogEntry) -> (r: VersionNumber)
        requires
            commit@.wf(),
        ensures
            r@ == spec_num_zero(self@, commit@),
    {
        match self {
            VersionNumber::CCVer(_) => VersionNumber::CCVer(0),
            _ => self.bump(commit),
        }
    }
}

impl crate::version_format::VersionNumberFormat {
    /// The starting value of a slot governed by this format.
    pub fn as_default_version_number(&self, commit: &LogEntry) -> (r: VersionNumber)
        requires
            commit@.wf(),
        ensures
            r@ == spec_default_num(self@, commit@),
    {
        match self {
            crate::version_format::VersionNumberFormat::CCVer => VersionNumber::CCVer(0),
            crate::version_format::VersionNumberFormat::CalVer(segs) => {
                let stamp = crate::time::civil_fields(commit.commit_epoch);
                let vals = seg_values(segs, &stamp);
                VersionNumber::CalVer(crate::text::copy_vec(segs), vals)
            },
            crate::version_format::VersionNumberFormat::Sha => VersionNumber::Sha(
                commit.commit_hash.clone(),
            ),
            crate::version_format::VersionNumberFormat::ShortSha => VersionNumber::ShortSha(
                short_hash_of(commit.commit_hash.as_str()),
            ),
        }
    }
}

/// The starting prerelease tag under a given prerelease format.
pub open spec fn spec_default_pre(p: PreTagFormatV, e: LogEntryV) -> PreTagV {
    match p {
        PreTagFormatV::Rc(vf) => PreTagV::Rc(spec_default_num(vf, e)),
        PreTagFormatV::Beta(vf) => PreTagV::Beta(spec_default_num(vf, e)),
        PreTagFormatV::Alpha(vf) => PreTagV::Alpha(spec_default_num(vf, e)),
        PreTagFormatV::Build(vf) => PreTagV::Build(spec_default_num(vf, e)),
        PreTagFormatV::Named(name, vf) => PreTagV::Named(name, spec_default_num(vf, e)),
        PreTagFormatV::Sha => PreTagV::Sha(VersionNumberV::Sha(e.commit_hash)),
        PreTagFormatV::ShortSha => PreTagV::ShortSha(
            VersionNumberV::ShortSha(e.commit_hash.subrange(0, 7)),
        ),
    }
}

impl crate::version_format::PreTagFormat {
    /// The starting prerelease tag under this format.
    pub fn as_default_pre_tag(&self, commit: &LogEntry) -> (r: PreTag)
        requires
            commit@.wf(),
        ensures
            r@ == spec_default_pre(self@, commit@),
    {
        match self {
            crate::version_format::PreTagFormat::Rc(vf) => PreTag::Rc(
                vf.as_default_version_number(commit),
            ),
            crate::version_format::PreTagFormat::Beta(vf) => PreTag::Beta(
                vf.as_default_version_number(commit),
            ),
            crate::version_format::PreTagFormat::Alpha(vf) => PreTag::Alpha(
                vf.as_default_version_number(commit),
            ),
            crate::version_format::PreTagFormat::Build(vf) => PreTag::Build(
                vf.as_default_version_number(commit),
            ),
            crate::version_format::PreTagFormat::Named(name, vf) => PreTag::Named(
                name.clone(),
                vf.as_default_version_number(commit),
            ),
            crate::version_format::PreTagFormat::Sha => PreTag::Sha(
                VersionNumber::Sha(commit.commit_hash.clone()),
            ),
            crate::version_format::PreTagFormat::ShortSha => PreTag::ShortSha(
                VersionNumber::ShortSha(short_hash_of(commit.commit_hash.as_str())),
            ),
        }
    }
}

/// The starting version of a scheme at a given commit: every slot at its
/// default, and the scheme's prerelease channel (if any) at its default.
pub open spec fn spec_default_version(f: VersionFormatV, e: LogEntryV) -> VersionV {
    VersionV {
        v_prefix: f.v_prefix,
        major: spec_default_num(f.major, e),
        minor: spec_default_num(f.minor, e),
        patch: spec_default_num(f.patch, e),
        prerelease: match f.prerelease {
            Some(p) => Some(spec_default_pre(p, e)),
            None => None,
        },
    }
}

impl crate::version_format::VersionFormat {
    /// The starting version of this scheme at a given commit.
    pub fn as_default_version(&self, commit: &LogEntry) -> (r: Version)
        requires
            commit@.wf(),
        ensures
            r@ == spec_default_version(self@, commit@),
    {
        Version {
            v_prefix: self.v_prefix,
            major: self.major.as_default_version_number(commit),
            minor: self.minor.as_default_version_number(commit),
            patch: self.patch.as_default_version_number(commit),
            prerelease: match &self.prerelease {
                Some(p) => Some(p.as_default_pre_tag(commit)),
                None => None,
            },
        }
    }
}

/// The number format that counts the prerelease channel when deriving a
/// next version: the declared channel's number format, sequential where
/// the scheme declares no prerelease.
pub open spec fn spec_pre_ops_format(f: VersionFormatV) -> NumberFormatV {
    match f.prerelease {
        Some(p) => p.version_format(),
        None => NumberFormatV::CCVer,
    }
}

impl crate::version_format::VersionFormat {
    /// The number format that counts the prerelease channel.
    fn pre_ops_format(&self) -> (r: crate::version_format::VersionNumberFormat)
        ensures
            r@ == spec_pre_ops_format(self@),
    {
        match &self.prerelease {
            Some(p) => p.version_format(),
            None => crate::version_format::VersionNumberFormat::CCVer,
        }
    }
}

/// The spec of a major advance: the major slot bumps, minor and patch
/// restart, the prerelease clears.
pub open spec fn spec_major(v: VersionV, e: LogEntryV, f: VersionFormatV) -> VersionV {
    VersionV {
        v_prefix: f.v_prefix,
        major: spec_num_bump(v.major, e),
        minor: spec_num_zero(v.minor, e),
        patch: spec_num_zero(v.patch, e),
        prerelease: None,
    }
}

/// The spec of a minor advance: the major slot carries over, the minor
/// slot bumps, the patch restarts, the prerelease clears.
pub open spec fn spec_minor(v: VersionV, e: LogEntryV, f: VersionFormatV) -> VersionV {
    VersionV {
        v_prefix: f.v_prefix,
        major: spec_num_peek(v.major, e),
        minor: spec_num_bump(v.minor, e),
        patch: spec_num_zero(v.patch, e),
        prerelease: None,
    }
}

/// The spec of a patch advance: major and minor carry over, the patch
/// slot bumps, the prerelease clears.
pub open spec fn spec_patch(v: VersionV, e: LogEntryV, f: VersionFormatV) -> VersionV {
    VersionV {
        v_prefix: f.v_prefix,
        major: spec_num_peek(v.major, e),
        minor: spec_num_peek(v.minor, e),
        patch: spec_num_bump(v.patch, e),
        prerelease: None,
    }
}

/// The four fixed prerelease channels.
#[derive(Clone, Copy, Debug, PartialEq, Eq, Structural)]
pub enum Channel {
    Rc,
    Beta,
    Alpha,
    Build,
}

/// Whether a prerelease tag sits in the given fixed channel.
pub open spec fn spec_in_channel(p: PreTagV, c: Channel) -> bool {
    match (p, c) {
        (PreTagV::Rc(_), Channel::Rc) => true,
        (PreTagV::Beta(_), Channel::Beta) => true,
        (PreTagV::Alpha(_), Channel::Alpha) => true,
        (PreTagV::Build(_), Channel::Build) => true,
        _ => false,
    }
}

/// A tag in the given fixed channel around a counter.
pub open spec fn spec_make_channel(c: Channel, n: VersionNumberV) -> PreTagV {
    match c {
        Channel::Rc => PreTagV::Rc(n),
        Channel::Beta => PreTagV::Beta(n),
        Channel::Alpha => PreTagV::Alpha(n),
        Channel::Build => PreTagV::Build(n),
    }
}

/// The spec of entering or advancing a fixed prerelease channel: the
/// number slots carry over; a version already in the channel advances its
/// counter, any other starts the channel at its default.
pub open spec fn spec_channel(v: VersionV, e: LogEntryV, f: VersionFormatV, c: Channel) -> VersionV {
    let counter = match v.prerelease {
        Some(p) => if spec_in_channel(p, c) {
            spec_num_bump(p.number(), e)
        } else {
            spec_default_num(spec_pre_ops_format(f), e)
        },
        None => spec_default_num(spec_pre_ops_format(f), e),
    };
    VersionV {
        v_prefix: f.v_prefix,
        major: spec_num_peek(v.major, e),
        minor: spec_num_peek(v.minor, e),
        patch: spec_num_peek(v.patch, e),
        prerelease: Some(spec_make_channel(c, counter)),
    }
}

/// The spec of entering or advancing the channel named after the commit's
/// branch: a version already in that very channel advances its counter,
/// any other starts the channel at its default.
pub open spec fn spec_named(v: VersionV, e: LogEntryV, f: VersionFormatV) -> VersionV {
    let counter = match v.prerelease {
        Some(PreTagV::Named(name, n)) => if name == e.branch {
            spec_num_bump(n, e)
        } else {
            spec_default_num(spec_pre_ops_format(f), e)
        },
        _ => spec_default_num(spec_pre_ops_format(f), e),
    };
    VersionV {
        v_prefix: f.v_prefix,
        major: spec_num_peek(v.major, e),
        minor: spec_num_peek(v.minor, e),
        patch: spec_num_peek(v.patch, e),
        prerelease: Some(PreTagV::Named(e.branch, counter)),
    }
}

/// The spec of a clean release: the number slots carry over, the
/// prerelease clears.
pub open spec fn spec_release(v: VersionV, e: LogEntryV, f: VersionFormatV) -> VersionV {
    VersionV {
        v_prefix: f.v_prefix,
        major: spec_num_peek(v.major, e),
        minor: spec_num_peek(v.minor, e),
        patch: spec_num_peek(v.patch, e),
        prerelease: None,
    }
}

/// The spec of stamping the full commit hash as build metadata.
pub open spec fn spec_sha(v: VersionV, e: LogEntryV, f: VersionFormatV) -> VersionV {
    VersionV {
        v_prefix: f.v_prefix,
        major: spec_num_peek(v.major, e),
        minor: spec_num_peek(v.minor, e),
        patch: spec_num_peek(v.patch, e),
        prerelease: Some(PreTagV::Sha(VersionNumberV::Sha(e.commit_hash))),
    }
}

/// The spec of stamping the short commit hash as build metadata.
pub open spec fn spec_short_sha(v: VersionV, e: LogEntryV, f: VersionFormatV) -> VersionV {
    VersionV {
        v_prefix: f.v_prefix,
        major: spec_num_peek(v.major, e),
        minor: spec_num_peek(v.minor, e),
        patch: spec_num_peek(v.patch, e),
        prerelease: Some(
            PreTagV::ShortSha(VersionNumberV::ShortSha(e.commit_hash.subrange(0, 7))),
        ),
    }
}

/// The next version a commit derives from the maximum of its ancestors'
/// versions, dispatching on the subject classification, the branch
/// policy, and whether the commit is a merge.
pub open spec fn spec_next_version(v: VersionV, e: LogEntryV, f: VersionFormatV) -> VersionV {
    let bump = crate::logs::spec_bump_class(e.subject);
    let branch = crate::logs::spec_branch_class(e.branch);
    match branch {
        crate::logs::BranchClass::Release => match bump {
            crate::logs::BumpClass::Major => spec_major(v, e, f),
            crate::logs::BumpClass::Minor => spec_minor(v, e, f),
            crate::logs::BumpClass::Patch => spec_patch(v, e, f),
            crate::logs::BumpClass::OtherConventional => spec_short_sha(v, e, f),
            crate::logs::BumpClass::Text => if e.is_merge() {
                spec_release(v, e, f)
            } else {
                spec_short_sha(v, e, f)
            },
        },
        crate::logs::BranchClass::Rc => match bump {
            crate::logs::BumpClass::Major => spec_channel(spec_major(v, e, f), e, f, Channel::Rc),
            crate::logs::BumpClass::Minor => spec_channel(spec_minor(v, e, f), e, f, Channel::Rc),
            crate::logs::BumpClass::Patch => spec_channel(spec_patch(v, e, f), e, f, Channel::Rc),
            _ => spec_channel(v, e, f, Channel::Rc),
        },
        crate::logs::BranchClass::Beta => match bump {
            crate::logs::BumpClass::Major => spec_channel(spec_major(v, e, f), e, f, Channel::Beta),
            crate::logs::BumpClass::Minor => spec_channel(spec_minor(v, e, f), e, f, Channel::Beta),
            crate::logs::BumpClass::Patch => spec_channel(spec_patch(v, e, f), e, f, Channel::Beta),
            _ => spec_channel(v, e, f, Channel::Beta),
        },
        crate::logs::BranchClass::Alpha => match bump {
            crate::logs::BumpClass::Major => spec_channel(
                spec_major(v, e, f),
                e,
                f,
                Channel::Alpha,
            ),
            crate::logs::BumpClass::Minor => spec_channel(
                spec_minor(v, e, f),
                e,
                f,
                Channel::Alpha,
            ),
            crate::logs::BumpClass::Patch => spec_channel(
                spec_patch(v, e, f),
                e,
                f,
                Channel::Alpha,
            ),
            _ => spec_channel(v, e, f, Channel::Alpha),
        },
        crate::logs::BranchClass::Other => match bump {
            crate::logs::BumpClass::Major => spec_named(spec_major(v, e, f), e, f),
            crate::logs::BumpClass::Minor => spec_named(spec_minor(v, e, f), e, f),
            crate::logs::BumpClass::Patch => spec_named(spec_patch(v, e, f), e, f),
            _ => spec_named(v, e, f),
        },
    }
}

impl Version {
    /// The major advance of this version at a commit.
    pub fn major(&self, commit: &LogEntry, version_format: &crate::version_format::VersionFormat) -> (r:
        Version)
        requires
            commit@.wf(),
        ensures
            r@ == spec_major(self@, commit@, version_format@),
    {
        Version {
            v_prefix: version_format.v_prefix,
            major: self.major.bump(commit),
            minor: self.minor.zero(commit),
            patch: self.patch.zero(commit),
            prerelease: None,
        }
    }

    /// The minor advance of this version at a commit.
    pub fn minor(&self, commit: &LogEntry, version_format: &crate::version_format::VersionFormat) -> (r:
        Version)
        requires
            commit@.wf(),
        ensures
            r@ == spec_minor(self@, commit@, version_format@),
    {
        Version {
            v_prefix: version_format.v_prefix,
            major: self.major.peek(commit),
            minor: self.minor.bump(commit),
            patch: self.patch.zero(commit),
            prerelease: None,
        }
    }

    /// The patch advance of this version at a commit.
    pub fn patch(&self, commit: &LogEntry, version_format: &crate::version_format::VersionFormat) -> (r:
        Version)
        requires
            commit@.wf(),
        ensures
            r@ == spec_patch(self@, commit@, version_format@),
    {
        Version {
            v_prefix: version_format.v_prefix,
            major: self.major.peek(commit),
            minor: self.minor.peek(commit),
            patch: self.patch.bump(commit),
            prerelease: None,
        }
    }

    /// Enters or advances one of the fixed prerelease channels.
    fn channel_step(
        &self,
        commit: &LogEntry,
        version_format: &crate::version_format::VersionFormat,
        channel: Channel,
    ) -> (r: Version)
        requires
            commit@.wf(),
        ensures
            r@ == spec_channel(self@, commit@, version_format@, channel),
    {
        let counter: VersionNumber = match &self.prerelease {
            Some(p) => {
                let hit = match (p, channel) {
                    (PreTag::Rc(_), Channel::Rc) => true,
                    (PreTag::Beta(_), Channel::Beta) => true,
                    (PreTag::Alpha(_), Channel::Alpha) => true,
                    (PreTag::Build(_), Channel::Build) => true,
                    _ => false,
                };
                if hit {
                    p.number().bump(commit)
                } else {
                    version_format.pre_ops_format().as_default_version_number(commit)
                }
            },
            None => version_format.pre_ops_format().as_default_version_number(commit),
        };
        let pre = match channel {
            Channel::Rc => PreTag::Rc(counter),
            Channel::Beta => PreTag::Beta(counter),
            Channel::Alpha => PreTag::Alpha(counter),
            Channel::Build => PreTag::Build(counter),
        };
        Version {
            v_prefix: version_format.v_prefix,
            major: self.major.peek(commit),
            minor: self.minor.peek(commit),
            patch: self.patch.peek(commit),
            prerelease: Some(pre),
        }
    }

    /// Enters or advances the release-candidate channel.
    pub fn rc(&self, commit: &LogEntry, version_format: &crate::version_format::VersionFormat) -> (r:
        Version)
        requires
            commit@.wf(),
        ensures
            r@ == spec_channel(self@, commit@, version_format@, Channel::Rc),
    {
        self.channel_step(commit, version_format, Channel::Rc)
    }

    /// Enters or advances the beta channel.
    pub fn beta(&self, commit: &LogEntry, version_format: &crate::version_format::VersionFormat) -> (r:
        Version)
        requires
            commit@.wf(),
        ensures
            r@ == spec_channel(self@, commit@, version_format@, Channel::Beta),
    {
        self.channel_step(commit, version_format, Channel::Beta)
    }

    /// Enters or advances the alpha channel.
    pub fn alpha(&self, commit: &LogEntry, version_format: &crate::version_format::VersionFormat) -> (r:
        Version)
        requires
            commit@.wf(),
        ensures
            r@ == spec_channel(self@, commit@, version_format@, Channel::Alpha),
    {
        self.channel_step(commit, version_format, Channel::Alpha)
    }

    /// Enters or advances the build channel.
    pub fn build(&self, commit: &LogEntry, version_format: &crate::version_format::VersionFormat) -> (r:
        Version)
        requires
            commit@.wf(),
        ensures
            r@ == spec_channel(self@, commit@, version_format@, Channel::Build),
    {
        self.channel_step(commit, version_format, Channel::Build)
    }

    /// Enters or advances the channel named after the commit's branch.
    pub fn named(&self, commit: &LogEntry, version_format: &crate::version_format::VersionFormat) -> (r:
        Version)
        requires
            commit@.wf(),
        ensures
            r@ == spec_named(self@, commit@, version_format@),
    {
        let counter: VersionNumber = match &self.prerelease {
            Some(PreTag::Named(name, n)) => {
                if streq(name.as_str(), commit.branch.as_str()) {
                    n.bump(commit)
                } else {
                    version_format.pre_ops_format().as_default_version_number(commit)
                }
            },
            _ => version_format.pre_ops_format().as_default_version_number(commit),
        };
        Version {
            v_prefix: version_format.v_prefix,
            major: self.major.peek(commit),
            minor: self.minor.peek(commit),
            patch: self.patch.peek(commit),
            prerelease: Some(PreTag::Named(commit.branch.clone(), counter)),
        }
    }

    /// The clean release of this version at a commit.
    pub fn release(&self, commit: &LogEntry, version_format: &crate::version_format::VersionFormat) -> (r:
        Version)
        requires
            commit@.wf(),
        ensures
            r@ == spec_release(self@, commit@, version_format@),
    {
        Version {
            v_prefix: version_format.v_prefix,
            major: self.major.peek(commit),
            minor: self.minor.peek(commit),
            patch: self.patch.peek(commit),
            prerelease: None,
        }
    }

    /// Stamps the full commit hash as build metadata.
    pub fn sha(&self, commit: &LogEntry, version_format: &crate::version_format::VersionFormat) -> (r:
        Version)
        requires
            commit@.wf(),
        ensures
            r@ == spec_sha(self@, commit@, version_format@),
    {
        Version {
            v_prefix: version_format.v_prefix,
            major: self.major.peek(commit),
            minor: self.minor.peek(commit),
            patch: self.patch.peek(commit),
            prerelease: Some(PreTag::Sha(VersionNumber::Sha(commit.commit_hash.clone()))),
        }
    }

    /// Stamps the short commit hash as build metadata.
    pub fn short_sha(&self, commit: &LogEntry, version_format: &crate::version_format::VersionFormat) -> (r:
        Version)
        requires
            commit@.wf(),
        ensures
            r@ == spec_short_sha(self@, commit@, version_format@),
    {
        Version {
            v_prefix: version_format.v_prefix,
            major: self.major.peek(commit),
            minor: self.minor.peek(commit),
            patch: self.patch.peek(commit),
            prerelease: Some(
                PreTag::ShortSha(VersionNumber::ShortSha(short_hash_of(commit.commit_hash.as_str()))),
            ),
        }
    }

    /// The version the given commit derives from this one, dispatching on
    /// the subject classification, the branch policy, and whether the
    /// commit is a merge.
    pub fn next_version(&self, log_entry: &LogEntry, version_format: &crate::version_format::VersionFormat) -> (r:
        Version)
        requires
            log_entry@.wf(),
        ensures
            r@ == spec_next_version(self@, log_entry@, version_format@),
    {
        let bump = log_entry.subject.bump_class();
        let branch = crate::logs::branch_class(log_entry.branch.as_str());
        let is_merge = log_entry.parent_hashes.len() >= 2;
        match branch {
            crate::logs::BranchClass::Release => match bump {
                crate::logs::BumpClass::Major => self.major(log_entry, version_format),
                crate::logs::BumpClass::Minor => self.minor(log_entry, version_format),
                crate::logs::BumpClass::Patch => self.patch(log_entry, version_format),
                crate::logs::BumpClass::OtherConventional => self.short_sha(
                    log_entry,
                    version_format,
                ),
                crate::logs::BumpClass::Text => if is_merge {
                    self.release(log_entry, version_format)
                } else {
                    self.short_sha(log_entry, version_format)
                },
            },
            crate::logs::BranchClass::Rc => match bump {
                crate::logs::BumpClass::Major => self.major(log_entry, version_format).rc(
                    log_entry,
                    version_format,
                ),
                crate::logs::BumpClass::Minor => self.minor(log_entry, version_format).rc(
                    log_entry,
                    version_format,
                ),
                crate::logs::BumpClass::Patch => self.patch(log_entry, version_format).rc(
                    log_entry,
                    version_format,
                ),
                _ => self.rc(log_entry, version_format),
            },
            crate::logs::BranchClass::Beta => match bump {
                crate::logs::BumpClass::Major => self.major(log_entry, version_format).beta(
                    log_entry,
                    version_format,
                ),
                crate::logs::BumpClass::Minor => self.minor(log_entry, version_format).beta(
                    log_entry,
                    version_format,
                ),
                crate::logs::BumpClass::Patch => self.patch(log_entry, version_format).beta(
                    log_entry,
                    version_format,
                ),
                _ => self.beta(log_entry, version_format),
            },
            crate::logs::BranchClass::Alpha => match bump {
                crate::logs::BumpClass::Major => self.major(log_entry, version_format).alpha(
                    log_entry,
                    version_format,
                ),
                crate::logs::BumpClass::Minor => self.minor(log_entry, version_format).alpha(
                    log_entry,
                    version_format,
                ),
                crate::logs::BumpClass::Patch => self.patch(log_entry, version_format).alpha(
                    log_entry,
                    version_format,
                ),
                _ => self.alpha(log_entry, version_format),
            },
            crate::logs::BranchClass::Other => match bump {
                crate::logs::BumpClass::Major => self.major(log_entry, version_format).named(
                    log_entry,
                    version_format,
                ),
                crate::logs::BumpClass::Minor => self.minor(log_entry, version_format).named(
                    log_entry,
                    version_format,
                ),
                crate::logs::BumpClass::Patch => self.patch(log_entry, version_format).named(
                    log_entry,
                    version_format,
                ),
                _ => self.named(log_entry, version_format),
            },
        }
    }
}

impl Version {
    /// A copy with the same view.
    pub fn dup(&self) -> (r: Version)
        ensures
            r@ == self@,
    {
        Version {
            v_prefix: self.v_prefix,
            major: self.major.dup(),
            minor: self.minor.dup(),
            patch: self.patch.dup(),
            prerelease: match &self.prerelease {
                Some(p) => Some(p.dup()),
                None => None,
            },
        }
    }
}

impl PartialEq for VersionNumber {
    /// Two version numbers are equal when their views are.
    fn eq(&self, other: &VersionNumber) -> (r: bool) {
        match (self, other) {
            (VersionNumber::CCVer(a), VersionNumber::CCVer(b)) => a == b,
            (VersionNumber::CalVer(s1, v1), VersionNumber::CalVer(s2, v2)) => {
                let r = seg_lists_equal(s1, s2) && u64_lists_equal(v1, v2);
                proof {
                    if r {
                        assert(self@ =~= other@);
                    } else if self@ == other@ {
                        assert(s1@ == s2@ && v1@ == v2@);
                    }
                }
                r
            },
            (VersionNumber::Sha(a), VersionNumber::Sha(b)) => {
                let r = streq(a.as_str(), b.as_str());
                proof {
                    if r {
                        assert(self@ =~= other@);
                    } else if self@ == other@ {
                        assert(a@ == b@);
                    }
                }
                r
            },
            (VersionNumber::ShortSha(a), VersionNumber::ShortSha(b)) => {
                let r = streq(a.as_str(), b.as_str());
                proof {
                    if r {
                        assert(self@ =~= other@);
                    } else if self@ == other@ {
                        assert(a@ == b@);
                    }
                }
                r
            },
            _ => false,
        }
    }
}

impl vstd::std_specs::cmp::PartialEqSpecImpl for VersionNumber {
    open spec fn obeys_eq_spec() -> bool {
        true
    }

    open spec fn eq_spec(&self, other: &VersionNumber) -> bool {
        self@ == other@
    }
}

impl Eq for VersionNumber {

}

impl PartialEq for PreTag {
    /// Two prerelease tags are equal when their views are.
    fn eq(&self, other: &PreTag) -> (r: bool) {
        match (self, other) {
            (PreTag::Rc(a), PreTag::Rc(b)) => {
                let r = a == b;
                proof {
                    if r {
                        assert(self@ =~= other@);
                    }
                }
                r
            },
            (PreTag::Beta(a), PreTag::Beta(b)) => {
                let r = a == b;
                proof {
                    if r {
                        assert(self@ =~= other@);
                    }
                }
                r
            },
            (PreTag::Alpha(a), PreTag::Alpha(b)) => {
                let r = a == b;
                proof {
                    if r {
                        assert(self@ =~= other@);
                    }
                }
                r
            },
            (PreTag::Build(a), PreTag::Build(b)) => {
                let r = a == b;
                proof {
                    if r {
                        assert(self@ =~= other@);
                    }
                }
                r
            },
            (PreTag::Named(n1, a), PreTag::Named(n2, b)) => {
                let r = streq(n1.as_str(), n2.as_str()) && a == b;
                proof {
                    if r {
                        assert(self@ =~= other@);
                    } else if self@ == other@ {
                        assert(n1@ == n2@ && a@ == b@);
                    }
                }
                r
            },
            (PreTag::Sha(a), PreTag::Sha(b)) => {
                let r = a == b;
                proof {
                    if r {
                        assert(self@ =~= other@);
                    }
                }
                r
            },
            (PreTag::ShortSha(a), PreTag::ShortSha(b)) => {
                let r = a == b;
                proof {
                    if r {
                        assert(self@ =~= other@);
                    }
                }
                r
            },
            _ => false,
        }
    }
}

impl vstd::std_specs::cmp::PartialEqSpecImpl for PreTag {
    open spec fn obeys_eq_spec() -> bool {
        true
    }

    open spec fn eq_spec(&self, other: &PreTag) -> bool {
        self@ == other@
    }
}

impl Eq for PreTag {

}

impl PartialEq for Version {
    /// Two versions are equal when their views are.
    fn eq(&self, other: &Version) -> (r: bool) {
        let pre_eq = match (&self.prerelease, &other.prerelease) {
            (None, None) => true,
            (Some(a), Some(b)) => a == b,
            _ => false,
        };
        let r = self.v_prefix == other.v_prefix && self.major == other.major && self.minor
            == other.minor && self.patch == other.patch && pre_eq;
        proof {
            if r {
                assert(self@ =~= other@);
            }
        }
        r
    }
}

impl vstd::std_specs::cmp::PartialEqSpecImpl for Version {
    open spec fn obeys_eq_spec() -> bool {
        true
    }

    open spec fn eq_spec(&self, other: &Version) -> bool {
        self@ == other@
    }
}

impl Eq for Version {

}

} // verus!
