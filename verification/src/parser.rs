//! The conventional-commit grammar: hand-rolled recognizers for subject
//! lines and their fragments, and for the hash lines of the raw log
//! layout.  Each recognizer's contract is the grammar itself, stated as
//! a spec function over the characters.

use crate::error::CcError;
use crate::logs::ConventionalSubject;
use crate::logs::Subject;
use crate::version_format::calver_format_wf;
use crate::version_format::format_calendar_ok;
use crate::version_format::CalVerFormatSegment;
use crate::version_format::NumberFormatV;
use crate::version_format::PreTagFormat;
use crate::version_format::PreTagFormatV;
use crate::version_format::VersionFormat;
use crate::version_format::VersionFormatV;
use crate::version_format::VersionNumberFormat;
use vstd::prelude::*;

verus! {

/// A character allowed in a commit type: a letter, a digit, `-` or `_`.
pub open spec fn is_type_char(c: char) -> bool {
    (97 <= c as u32 <= 122) || (65 <= c as u32 <= 90) || (48 <= c as u32 <= 57) || c == '-'
        || c == '_'
}

/// A character allowed in a scope: anything but the closing parenthesis
/// and a line break.
pub open spec fn is_scope_char(c: char) -> bool {
    c != ')' && c != '\n'
}

/// A lowercase hexadecimal digit, as commit hashes use.
pub open spec fn is_hex_char(c: char) -> bool {
    crate::version::is_lower_hex_char(c)
}

/// The end of the maximal run of type characters from `i`.
pub open spec fn type_end(s: Seq<char>, i: int) -> int
    decreases s.len() - i,
{
    if i < 0 || i >= s.len() {
        i
    } else if is_type_char(s[i]) {
        type_end(s, i + 1)
    } else {
        i
    }
}

/// The runs found by `type_end` stay within the sequence and consist of
/// type characters.
pub proof fn lemma_type_end(s: Seq<char>, i: int)
    requires
        0 <= i <= s.len(),
    ensures
        i <= type_end(s, i) <= s.len(),
        forall|j: int| i <= j < type_end(s, i) ==> is_type_char(#[trigger] s[j]),
        type_end(s, i) < s.len() ==> !is_type_char(s[type_end(s, i)]),
    decreases s.len() - i,
{
    if i < s.len() && is_type_char(s[i]) {
        lemma_type_end(s, i + 1);
    }
}

/// Whether every character of the sequence satisfies a class, stated for
/// the three classes the grammar uses.
pub open spec fn all_type_chars(s: Seq<char>) -> bool {
    forall|j: int| 0 <= j < s.len() ==> is_type_char(#[trigger] s[j])
}

/// Whether every character is a scope character.
pub open spec fn all_scope_chars(s: Seq<char>) -> bool {
    forall|j: int| 0 <= j < s.len() ==> is_scope_char(#[trigger] s[j])
}

/// The first `)` at or after `i`, if any.
pub open spec fn find_close(s: Seq<char>, i: int) -> Option<int>
    decreases s.len() - i,
{
    if i < 0 || i >= s.len() {
        None
    } else if s[i] == ')' {
        Some(i)
    } else {
        find_close(s, i + 1)
    }
}

/// What a successful close-parenthesis search means.
pub proof fn lemma_find_close(s: Seq<char>, i: int)
    requires
        0 <= i <= s.len(),
    ensures
        match find_close(s, i) {
            Some(p) => i <= p < s.len() && s[p] == ')' && forall|j: int|
                i <= j < p ==> s[j] != ')',
            None => forall|j: int| i <= j < s.len() ==> s[j] != ')',
        },
    decreases s.len() - i,
{
    if i < s.len() && s[i] != ')' {
        lemma_find_close(s, i + 1);
    }
}

/// The parsed `type[(scope)][!]` prefix of a subject line: the commit
/// type, the optional scope, the breaking bang, and the position just
/// past the prefix.  `None` where the line does not open with one.
pub open spec fn spec_parse_tag(s: Seq<char>) -> Option<(Seq<char>, Option<Seq<char>>, bool, int)> {
    let t = type_end(s, 0);
    if t == 0 {
        None
    } else {
        if t < s.len() && s[t] == '(' {
            match find_close(s, t + 1) {
                None => None,
                Some(close) => if close == t + 1 {
                    None
                } else {
                    let scope = s.subrange(t + 1, close);
                    if close + 1 < s.len() && s[close + 1] == '!' {
                        Some((s.subrange(0, t), Some(scope), true, close + 2))
                    } else {
                        Some((s.subrange(0, t), Some(scope), false, close + 1))
                    }
                },
            }
        } else {
            if t < s.len() && s[t] == '!' {
                Some((s.subrange(0, t), None, true, t + 1))
            } else {
                Some((s.subrange(0, t), None, false, t))
            }
        }
    }
}

/// The parsed conventional subject of a line: its tag prefix followed by
/// a literal `: ` and the free-text description.
pub open spec fn spec_parse_conventional(s: Seq<char>) -> Option<
    (Seq<char>, Option<Seq<char>>, bool, Seq<char>),
> {
    match spec_parse_tag(s) {
        None => None,
        Some((t, scope, bang, after)) => if after + 2 <= s.len() && s[after] == ':' && s[after + 1]
            == ' ' {
            Some((t, scope, bang, s.subrange(after + 2, s.len() as int)))
        } else {
            None
        },
    }
}

/// The subject a line parses to: its conventional reading where it has
/// one, the raw text otherwise.
pub open spec fn spec_parse_subject(s: Seq<char>) -> crate::logs::SubjectV {
    match spec_parse_conventional(s) {
        Some((t, scope, bang, desc)) => crate::logs::SubjectV::Conventional(
            crate::logs::ConventionalSubjectV {
                commit_type: t,
                breaking: bang,
                scope: scope,
                description: desc,
            },
        ),
        None => crate::logs::SubjectV::Text(s),
    }
}

/// Finds the end of the maximal run of type characters from `i`.
#[verifier::loop_isolation(false)]
fn scan_type_end(s: &Vec<char>, i: usize) -> (r: usize)
    requires
        i <= s@.len(),
    ensures
        r == type_end(s@, i as int),
        i <= r <= s@.len(),
{
    proof {
        lemma_type_end(s@, i as int);
    }
    let mut j = i;
    while j < s.len()
        invariant
            i <= j <= s@.len(),
            type_end(s@, i as int) == type_end(s@, j as int),
            forall|k: int| i <= k < j ==> is_type_char(#[trigger] s@[k]),
        decreases s@.len() - j,
    {
        let c = s[j];
        let u = c as u32;
        if (97 <= u && u <= 122) || (65 <= u && u <= 90) || (48 <= u && u <= 57) || c == '-' || c
            == '_' {
            proof {
                assert(is_type_char(s@[j as int]));
            }
            j += 1;
        } else {
            proof {
                assert(!is_type_char(s@[j as int]));
            }
            return j;
        }
    }
    j
}

/// Finds the first `)` at or after `i`.
#[verifier::loop_isolation(false)]
fn scan_close(s: &Vec<char>, i: usize) -> (r: Option<usize>)
    requires
        i <= s@.len(),
    ensures
        match r {
            Some(p) => find_close(s@, i as int) == Some(p as int),
            None => find_close(s@, i as int) is None,
        },
{
    let mut j = i;
    while j < s.len()
        invariant
            i <= j <= s@.len(),
            find_close(s@, i as int) == find_close(s@, j as int),
        decreases s@.len() - j,
    {
        if s[j] == ')' {
            return Some(j);
        }
        j += 1;
    }
    None
}

/// The characters of a string between two bounds, as an owned string.
fn slice_of(s: &str, chars: &Vec<char>, from: usize, to: usize) -> (r: String)
    requires
        chars@ == s@,
        from <= to <= s@.len(),
    ensures
        r@ == s@.subrange(from as int, to as int),
{
    let sub = s.substring_char(from, to);
    sub.to_owned()
}

/// Parses the `type[(scope)][!]` prefix of a line; the whole line must
/// be consumed.
pub fn parse_tag(s: &str) -> (r: Option<(String, Option<String>, bool)>)
    ensures
        match r {
            Some(out) => match spec_parse_tag(s@) {
                Some((t, scope, bang, after)) => {
                    &&& after == s@.len()
                    &&& out.0@ == t
                    &&& match (&out.1, scope) {
                        (Some(o), Some(sc)) => o@ == sc,
                        (None, None) => true,
                        _ => false,
                    }
                    &&& out.2 == bang
                },
                None => false,
            },
            None => match spec_parse_tag(s@) {
                Some((t, scope, bang, after)) => after != s@.len(),
                None => true,
            },
        },
{
    let chars = crate::text::str_chars(s);
    let (out, after) = match parse_tag_prefix(s, &chars) {
        Some(v) => v,
        None => {
            return None;
        },
    };
    if after == chars.len() {
        Some(out)
    } else {
        None
    }
}

/// Parses the `type[(scope)][!]` prefix of a line, returning what
/// follows it as well.
fn parse_tag_prefix(s: &str, chars: &Vec<char>) -> (r: Option<
    ((String, Option<String>, bool), usize),
>)
    requires
        chars@ == s@,
    ensures
        match r {
            Some(out) => match spec_parse_tag(s@) {
                Some((t, scope, bang, after)) => {
                    &&& out.1 == after
                    &&& out.0.0@ == t
                    &&& match (&out.0.1, scope) {
                        (Some(o), Some(sc)) => o@ == sc,
                        (None, None) => true,
                        _ => false,
                    }
                    &&& out.0.2 == bang
                },
                None => false,
            },
            None => spec_parse_tag(s@) is None,
        },
{
    let t = scan_type_end(chars, 0);
    if t == 0 {
        return None;
    }
    let ty = slice_of(s, chars, 0, t);
    if t < chars.len() && chars[t] == '(' {
        match scan_close(chars, t + 1) {
            None => {
                proof {
                    lemma_find_close(s@, t + 1);
                }
                None
            },
            Some(close) => {
                proof {
                    lemma_find_close(s@, t + 1);
                }
                if close == t + 1 {
                    return None;
                }
                let scope = slice_of(s, chars, t + 1, close);
                if close + 1 < chars.len() && chars[close + 1] == '!' {
                    Some(((ty, Some(scope), true), close + 2))
                } else {
                    Some(((ty, Some(scope), false), close + 1))
                }
            },
        }
    } else {
        if t < chars.len() && chars[t] == '!' {
            Some(((ty, None, true), t + 1))
        } else {
            Some(((ty, None, false), t))
        }
    }
}

/// Parses a whole string as a commit type.
pub fn parse_type(s: &str) -> (r: Option<String>)
    ensures
        match r {
            Some(t) => t@ == s@ && s@.len() > 0 && all_type_chars(s@),
            None => s@.len() == 0 || !all_type_chars(s@),
        },
{
    let chars = crate::text::str_chars(s);
    let t = scan_type_end(&chars, 0);
    proof {
        lemma_type_end(s@, 0);
    }
    if t == chars.len() && t > 0 {
        Some(slice_of(s, &chars, 0, t))
    } else {
        proof {
            if t < s@.len() {
                assert(!is_type_char(s@[t as int]));
            }
        }
        None
    }
}

/// Parses a whole string as a scope.
#[verifier::loop_isolation(false)]
pub fn parse_scope(s: &str) -> (r: Option<String>)
    ensures
        match r {
            Some(t) => t@ == s@ && s@.len() > 0 && all_scope_chars(s@),
            None => s@.len() == 0 || !all_scope_chars(s@),
        },
{
    let chars = crate::text::str_chars(s);
    if chars.len() == 0 {
        return None;
    }
    let mut j: usize = 0;
    while j < chars.len()
        invariant
            j <= s@.len(),
            chars@ == s@,
            forall|k: int| 0 <= k < j ==> is_scope_char(#[trigger] s@[k]),
        decreases s@.len() - j,
    {
        if chars[j] == ')' || chars[j] == '\n' {
            proof {
                assert(!is_scope_char(s@[j as int]));
            }
            return None;
        }
        j += 1;
    }
    Some(slice_of(s, &chars, 0, chars.len()))
}

/// Parses a whole string as a parenthesized scope section.
#[verifier::loop_isolation(false)]
pub fn parse_scope_section(s: &str) -> (r: Option<String>)
    ensures
        match r {
            Some(t) => {
                &&& s@.len() >= 3
                &&& s@[0] == '('
                &&& s@[s@.len() - 1] == ')'
                &&& t@ == s@.subrange(1, s@.len() - 1)
                &&& all_scope_chars(t@)
            },
            None => !(s@.len() >= 3 && s@[0] == '(' && s@[s@.len() - 1] == ')' && all_scope_chars(
                s@.subrange(1, s@.len() - 1),
            )),
        },
{
    let chars = crate::text::str_chars(s);
    if chars.len() < 3 {
        return None;
    }
    if !(chars[0] == '(') || !(chars[chars.len() - 1] == ')') {
        return None;
    }
    let mut j: usize = 1;
    while j < chars.len() - 1
        invariant
            1 <= j <= s@.len() - 1,
            s@.len() >= 3,
            chars@ == s@,
            forall|k: int| 1 <= k < j ==> is_scope_char(#[trigger] s@[k]),
        decreases s@.len() - 1 - j,
    {
        if chars[j] == ')' || chars[j] == '\n' {
            proof {
                assert(!is_scope_char(s@[j as int]));
                assert(s@.subrange(1, s@.len() - 1)[j - 1] == s@[j as int]);
            }
            return None;
        }
        j += 1;
    }
    let out = slice_of(s, &chars, 1, chars.len() - 1);
    proof {
        assert forall|k: int| 0 <= k < out@.len() implies is_scope_char(#[trigger] out@[k]) by {
            assert(out@[k] == s@[k + 1]);
        }
    }
    Some(out)
}

/// Whether a string is the breaking bang.
pub fn parse_breaking_bang(s: &str) -> (r: bool)
    ensures
        r == (s@ =~= seq!['!']),
{
    let chars = crate::text::str_chars(s);
    if chars.len() == 1 && chars[0] == '!' {
        proof {
            assert(s@ =~= seq!['!']);
        }
        true
    } else {
        proof {
            if s@ =~= seq!['!'] {
                assert(s@.len() == 1 && s@[0] == '!');
            }
        }
        false
    }
}

/// Parses a line as a conventional subject, if it is one.
pub fn parse_conventional_subject(s: &str) -> (r: Option<ConventionalSubject>)
    ensures
        match r {
            Some(c) => match spec_parse_conventional(s@) {
                Some((t, scope, bang, desc)) => {
                    &&& c.commit_type@ == t
                    &&& match (&c.scope, scope) {
                        (Some(o), Some(sc)) => o@ == sc,
                        (None, None) => true,
                        _ => false,
                    }
                    &&& c.breaking == bang
                    &&& c.description@ == desc
                },
                None => false,
            },
            None => spec_parse_conventional(s@) is None,
        },
{
    let chars = crate::text::str_chars(s);
    let (out, after) = match parse_tag_prefix(s, &chars) {
        Some(v) => v,
        None => {
            return None;
        },
    };
    if after < chars.len() && after + 1 < chars.len() && chars[after] == ':' && chars[after + 1]
        == ' ' {
        let desc = slice_of(s, &chars, after + 2, chars.len());
        Some(
            ConventionalSubject {
                commit_type: out.0,
                breaking: out.2,
                scope: out.1,
                description: desc,
            },
        )
    } else {
        None
    }
}

/// Parses a subject line: its conventional reading where it has one, the
/// raw text otherwise.
pub fn parse_subject(s: &str) -> (r: Subject)
    ensures
        r@ == spec_parse_subject(s@),
{
    match parse_conventional_subject(s) {
        Some(c) => Subject::Conventional(c),
        None => Subject::Text(s.to_owned()),
    }
}

/// The first line break at or after `i`, if any.
pub open spec fn find_newline(s: Seq<char>, i: int) -> Option<int>
    decreases s.len() - i,
{
    if i < 0 || i >= s.len() {
        None
    } else if s[i] == '\n' {
        Some(i)
    } else {
        find_newline(s, i + 1)
    }
}

/// The characters before the first line break, or the whole sequence
/// where there is none.
pub open spec fn spec_first_line(s: Seq<char>) -> Seq<char> {
    match find_newline(s, 0) {
        Some(p) => s.subrange(0, p),
        None => s,
    }
}

/// The first line of a string.
#[verifier::loop_isolation(false)]
pub fn first_line(s: &str) -> (r: String)
    ensures
        r@ == spec_first_line(s@),
{
    let chars = crate::text::str_chars(s);
    let mut j: usize = 0;
    while j < chars.len()
        invariant
            j <= s@.len(),
            chars@ == s@,
            find_newline(s@, 0) == find_newline(s@, j as int),
        decreases s@.len() - j,
    {
        if chars[j] == '\n' {
            return slice_of(s, &chars, 0, j);
        }
        j += 1;
    }
    proof {
        assert(s@.subrange(0, s@.len() as int) =~= s@);
    }
    slice_of(s, &chars, 0, chars.len())
}

/// The line content before a trailing line break, if one is there.
pub open spec fn strip_newline(s: Seq<char>) -> Seq<char> {
    if s.len() > 0 && s[s.len() - 1] == '\n' {
        s.subrange(0, s.len() - 1)
    } else {
        s
    }
}

/// Parses a commit-hash line: a full forty-digit hash, with or without a
/// trailing line break.
#[verifier::loop_isolation(false)]
pub fn parse_commit_hashline(s: &str) -> (r: Option<String>)
    ensures
        match r {
            Some(h) => h@ == strip_newline(s@) && crate::version::is_full_hash(h@),
            None => !crate::version::is_full_hash(strip_newline(s@)),
        },
{
    let chars = crate::text::str_chars(s);
    let end = if chars.len() > 0 && chars[chars.len() - 1] == '\n' {
        chars.len() - 1
    } else {
        chars.len()
    };
    if end != 40 {
        proof {
            assert(strip_newline(s@).len() == end);
        }
        return None;
    }
    let mut j: usize = 0;
    while j < end
        invariant
            j <= end,
            end <= s@.len(),
            chars@ == s@,
            forall|k: int| 0 <= k < j ==> is_hex_char(#[trigger] s@[k]),
        decreases end - j,
    {
        let u = chars[j] as u32;
        if !((48 <= u && u <= 57) || (97 <= u && u <= 102)) {
            proof {
                assert(!is_hex_char(s@[j as int]));
                if crate::version::is_full_hash(strip_newline(s@)) {
                    assert(strip_newline(s@).len() == end);
                    assert(strip_newline(s@)[j as int] == s@[j as int]);
                    assert(crate::version::is_lower_hex_char(strip_newline(s@)[j as int]));
                    assert(false);
                }
            }
            return None;
        }
        j += 1;
    }
    let out = slice_of(s, &chars, 0, end);
    proof {
        assert(out@ =~= strip_newline(s@));
        assert forall|k: int| 0 <= k < out@.len() implies crate::version::is_lower_hex_char(
            #[trigger] out@[k],
        ) by {
            assert(out@[k] == s@[k]);
        }
    }
    Some(out)
}

/// The hashes of a parent line: one or more full hashes separated by
/// single spaces (or none at all for a root commit); `None` where the
/// characters are not of that shape.
pub open spec fn spec_parse_parents(s: Seq<char>) -> Option<Seq<Seq<char>>>
    decreases s.len(),
{
    if s.len() == 0 {
        Some(Seq::empty())
    } else if s.len() < 40 {
        None
    } else if !crate::version::is_full_hash(s.subrange(0, 40)) {
        None
    } else if s.len() == 40 {
        Some(seq![s.subrange(0, 40)])
    } else if s[40] != ' ' {
        None
    } else if s.len() == 41 {
        None
    } else {
        match spec_parse_parents(s.skip(41)) {
            None => None,
            Some(rest) => Some(seq![s.subrange(0, 40)] + rest),
        }
    }
}

/// Every hash a parent line parses to is a full hash.
pub proof fn lemma_parse_parents_hashes(s: Seq<char>)
    ensures
        match spec_parse_parents(s) {
            Some(hs) => forall|k: int|
                0 <= k < hs.len() ==> crate::version::is_full_hash(#[trigger] hs[k]),
            None => true,
        },
    decreases s.len(),
{
    if s.len() > 41 && crate::version::is_full_hash(s.subrange(0, 40)) && s[40] == ' ' {
        lemma_parse_parents_hashes(s.skip(41));
        match (spec_parse_parents(s), spec_parse_parents(s.skip(41))) {
            (Some(hs), Some(rest)) => {
                assert forall|k: int|
                    0 <= k < hs.len() implies crate::version::is_full_hash(#[trigger] hs[k]) by {
                    if k == 0 {
                        assert(hs[0] == s.subrange(0, 40));
                    } else {
                        assert(hs[k] == rest[k - 1]);
                    }
                }
            },
            _ => {},
        }
    }
}

/// Parses a parent-hash line: zero or more full hashes separated by
/// single spaces, with or without a trailing line break.
#[verifier::loop_isolation(false)]
#[verifier::rlimit(60)]
pub fn parse_parent_hashline(s: &str) -> (r: Option<Vec<String>>)
    ensures
        match r {
            Some(hs) => spec_parse_parents(strip_newline(s@)) == Some(
                Seq::new(hs@.len(), |k: int| hs@[k]@),
            ),
            None => spec_parse_parents(strip_newline(s@)) is None,
        },
{
    let chars = crate::text::str_chars(s);
    let end = if chars.len() > 0 && chars[chars.len() - 1] == '\n' {
        chars.len() - 1
    } else {
        chars.len()
    };
    let ghost strip = strip_newline(s@);
    proof {
        assert(strip.len() == end);
        assert(forall|x: int| 0 <= x < end ==> strip[x] == s@[x]);
    }
    let mut out: Vec<String> = Vec::new();
    let mut at: usize = 0;
    if end == 0 {
        proof {
            assert(Seq::new(out@.len(), |k: int| out@[k]@) =~= Seq::<Seq<char>>::empty());
        }
        return Some(out);
    }
    proof {
        assert(strip.skip(0) =~= strip);
        match spec_parse_parents(strip) {
            None => {},
            Some(rest) => {
                assert(Seq::new(out@.len(), |k: int| out@[k]@) + rest =~= rest);
            },
        }
    }
    while at < end
        invariant
            at <= end,
            end <= s@.len(),
            chars@ == s@,
            strip == strip_newline(s@),
            spec_parse_parents(strip) == match spec_parse_parents(strip.skip(at as int)) {
                None => None,
                Some(rest) => Some(Seq::new(out@.len(), |k: int| out@[k]@) + rest),
            },
        decreases end - at,
    {
        let ghost suffix = strip.skip(at as int);
        proof {
            assert(suffix.len() == end - at);
            assert(forall|x: int| 0 <= x < suffix.len() ==> suffix[x] == s@[at + x]);
        }
        if end - at < 40 {
            proof {
                assert(spec_parse_parents(suffix) is None);
            }
            return None;
        }
        let mut j: usize = at;
        while j < at + 40
            invariant
                at <= j <= at + 40,
                at + 40 <= end,
                forall|k: int| at <= k < j ==> is_hex_char(#[trigger] s@[k]),
            decreases at + 40 - j,
        {
            let u = chars[j] as u32;
            if !((48 <= u && u <= 57) || (97 <= u && u <= 102)) {
                proof {
                    assert(!is_hex_char(s@[j as int]));
                    assert(suffix.subrange(0, 40)[j - at] == s@[j as int]);
                    assert(!crate::version::is_full_hash(suffix.subrange(0, 40)));
                    assert(spec_parse_parents(suffix) is None);
                }
                return None;
            }
            proof {
                assert(is_hex_char(s@[j as int]));
            }
            j += 1;
        }
        let h = slice_of(s, &chars, at, at + 40);
        proof {
            assert(h@ =~= suffix.subrange(0, 40));
            assert forall|k: int| 0 <= k < h@.len() implies crate::version::is_lower_hex_char(
                #[trigger] h@[k],
            ) by {
                assert(h@[k] == s@[at + k]);
            }
            assert(crate::version::is_full_hash(suffix.subrange(0, 40)));
        }
        let ghost out0 = out@;
        if at + 40 == end {
            out.push(h);
            proof {
                assert(suffix.len() == 40);
                assert(spec_parse_parents(suffix) == Some(seq![suffix.subrange(0, 40)]));
                assert(strip.skip(end as int).len() == 0);
                assert(spec_parse_parents(strip.skip(end as int)) == Some(Seq::<Seq<char>>::empty()));
                assert(Seq::new(out@.len(), |k: int| out@[k]@) =~= Seq::new(
                    out0.len(),
                    |k: int| out0[k]@,
                ) + seq![suffix.subrange(0, 40)]);
                assert(Seq::new(out@.len(), |k: int| out@[k]@) + Seq::<Seq<char>>::empty() =~= Seq::new(
                    out@.len(),
                    |k: int| out@[k]@,
                ));
            }
            at = at + 40;
        } else {
            // more text follows the hash: a single space then at least one
            // further hash
            if chars[at + 40] != ' ' {
                proof {
                    assert(suffix[40] == s@[at + 40]);
                    assert(spec_parse_parents(suffix) is None);
                }
                return None;
            }
            if at + 41 == end {
                proof {
                    assert(suffix[40] == s@[at + 40]);
                    assert(suffix.len() == 41);
                    assert(spec_parse_parents(suffix) is None);
                }
                return None;
            }
            out.push(h);
            proof {
                assert(suffix[40] == s@[at + 40]);
                assert(suffix.len() > 41);
                assert(suffix.skip(41) =~= strip.skip(at + 41));
                assert(Seq::new(out@.len(), |k: int| out@[k]@) =~= Seq::new(
                    out0.len(),
                    |k: int| out0[k]@,
                ) + seq![suffix.subrange(0, 40)]);
                match spec_parse_parents(strip.skip(at + 41)) {
                    None => {},
                    Some(rest) => {
                        assert(spec_parse_parents(suffix) == Some(
                            seq![suffix.subrange(0, 40)] + rest,
                        ));
                        assert((Seq::new(out0.len(), |k: int| out0[k]@) + (seq![
                            suffix.subrange(0, 40),
                        ] + rest)) =~= (Seq::new(out@.len(), |k: int| out@[k]@) + rest));
                    },
                }
            }
            at = at + 41;
        }
    }
    proof {
        assert(strip.skip(end as int).len() == 0);
        assert(spec_parse_parents(strip.skip(at as int)) == Some(Seq::<Seq<char>>::empty()));
        assert(Seq::new(out@.len(), |k: int| out@[k]@) + Seq::<Seq<char>>::empty() =~= Seq::new(
            out@.len(),
            |k: int| out@[k]@,
        ));
    }
    Some(out)
}

/// Parses a commit-timestamp line: an RFC 3339 date-and-time, with or
/// without a trailing line break, whose instant lies in the library's
/// supported epoch range.  `None` where the text is not such a date or
/// the instant falls outside the range.
pub fn parse_timestamp_line(s: &str) -> (r: Option<u64>)
    ensures
        match r {
            Some(t) => crate::time::rfc3339_epoch_of(strip_newline(s@)) == Some(t as i64) && t
                <= crate::time::MAX_EPOCH_SECS,
            None => match crate::time::rfc3339_epoch_of(strip_newline(s@)) {
                Some(t) => t < 0 || t > crate::time::MAX_EPOCH_SECS as i64,
                None => true,
            },
        },
{
    let n = s.unicode_len();
    let line = if n > 0 && s.get_char(n - 1) == '\n' {
        s.substring_char(0, n - 1)
    } else {
        s
    };
    proof {
        assert(line@ =~= strip_newline(s@));
    }
    match crate::time::parse_rfc3339_epoch(line) {
        Some(t) => {
            if 0 <= t && t <= crate::time::MAX_EPOCH_SECS as i64 {
                Some(t as u64)
            } else {
                None
            }
        },
        None => None,
    }
}

/// Parses a HEAD decoration, `HEAD -> <branch>`, yielding the branch.
pub fn parse_head_dec(s: &str) -> (r: Option<String>)
    ensures
        match r {
            Some(b) => s@.len() >= 8 && b@ == s@.subrange(8, s@.len() as int),
            None => s@.len() < 8 || s@.subrange(0, 8) != "HEAD -> "@,
        },
{
    let chars = crate::text::str_chars(s);
    if chars.len() < 8 {
        return None;
    }
    let prefix = s.substring_char(0, 8);
    proof {
        reveal_strlit("HEAD -> ");
    }
    if crate::text::streq(prefix, "HEAD -> ") {
        Some(slice_of(s, &chars, 8, chars.len()))
    } else {
        None
    }
}



/// Whether the characters at `i` spell the full-hash token `<sha>`.
pub open spec fn sha_tok_at(s: Seq<char>, i: int) -> bool {
    &&& 0 <= i
    &&& i + 5 <= s.len()
    &&& s[i] == '<'
    &&& s[i + 1] == 's'
    &&& s[i + 2] == 'h'
    &&& s[i + 3] == 'a'
    &&& s[i + 4] == '>'
}

/// Whether the characters at `i` spell the short-hash token
/// `<short-sha>`.
pub open spec fn short_sha_tok_at(s: Seq<char>, i: int) -> bool {
    &&& 0 <= i
    &&& i + 11 <= s.len()
    &&& s[i] == '<'
    &&& s[i + 1] == 's'
    &&& s[i + 2] == 'h'
    &&& s[i + 3] == 'o'
    &&& s[i + 4] == 'r'
    &&& s[i + 5] == 't'
    &&& s[i + 6] == '-'
    &&& s[i + 7] == 's'
    &&& s[i + 8] == 'h'
    &&& s[i + 9] == 'a'
    &&& s[i + 10] == '>'
}

/// The calendar segments read greedily from `i`, longest token first
/// (`YYYY` before `YY`, `DDD` before `DD`), with the position just past
/// them.
pub open spec fn spec_parse_cal(s: Seq<char>, i: int) -> (Seq<CalVerFormatSegment>, int)
    decreases s.len() - i,
{
    if i < 0 || i >= s.len() {
        (Seq::empty(), i)
    } else if i + 4 <= s.len() && s[i] == 'Y' && s[i + 1] == 'Y' && s[i + 2] == 'Y' && s[i + 3]
        == 'Y' {
        let r = spec_parse_cal(s, i + 4);
        (seq![CalVerFormatSegment::Year4] + r.0, r.1)
    } else if i + 2 <= s.len() && s[i] == 'Y' && s[i + 1] == 'Y' {
        let r = spec_parse_cal(s, i + 2);
        (seq![CalVerFormatSegment::Year2] + r.0, r.1)
    } else if s[i] == 'E' {
        let r = spec_parse_cal(s, i + 1);
        (seq![CalVerFormatSegment::Epoch] + r.0, r.1)
    } else if i + 2 <= s.len() && s[i] == 'M' && s[i + 1] == 'M' {
        let r = spec_parse_cal(s, i + 2);
        (seq![CalVerFormatSegment::Month] + r.0, r.1)
    } else if i + 3 <= s.len() && s[i] == 'D' && s[i + 1] == 'D' && s[i + 2] == 'D' {
        let r = spec_parse_cal(s, i + 3);
        (seq![CalVerFormatSegment::DayOfYear] + r.0, r.1)
    } else if i + 2 <= s.len() && s[i] == 'D' && s[i + 1] == 'D' {
        let r = spec_parse_cal(s, i + 2);
        (seq![CalVerFormatSegment::Day] + r.0, r.1)
    } else if i + 2 <= s.len() && s[i] == 'H' && s[i + 1] == 'H' {
        let r = spec_parse_cal(s, i + 2);
        (seq![CalVerFormatSegment::Hour] + r.0, r.1)
    } else if i + 2 <= s.len() && s[i] == 'm' && s[i + 1] == 'm' {
        let r = spec_parse_cal(s, i + 2);
        (seq![CalVerFormatSegment::Minute] + r.0, r.1)
    } else if i + 2 <= s.len() && s[i] == 'S' && s[i + 1] == 'S' {
        let r = spec_parse_cal(s, i + 2);
        (seq![CalVerFormatSegment::Second] + r.0, r.1)
    } else {
        (Seq::empty(), i)
    }
}

/// The calendar reader stays within the sequence.
pub proof fn lemma_parse_cal_bounds(s: Seq<char>, i: int)
    requires
        0 <= i <= s.len(),
    ensures
        i <= spec_parse_cal(s, i).1 <= s.len(),
    decreases s.len() - i,
{
    if i < s.len() {
        if i + 4 <= s.len() && s[i] == 'Y' && s[i + 1] == 'Y' && s[i + 2] == 'Y' && s[i + 3]
            == 'Y' {
            lemma_parse_cal_bounds(s, i + 4);
        } else if i + 2 <= s.len() && s[i] == 'Y' && s[i + 1] == 'Y' {
            lemma_parse_cal_bounds(s, i + 2);
        } else if s[i] == 'E' {
            lemma_parse_cal_bounds(s, i + 1);
        } else if i + 2 <= s.len() && s[i] == 'M' && s[i + 1] == 'M' {
            lemma_parse_cal_bounds(s, i + 2);
        } else if i + 3 <= s.len() && s[i] == 'D' && s[i + 1] == 'D' && s[i + 2] == 'D' {
            lemma_parse_cal_bounds(s, i + 3);
        } else if i + 2 <= s.len() && s[i] == 'D' && s[i + 1] == 'D' {
            lemma_parse_cal_bounds(s, i + 2);
        } else if i + 2 <= s.len() && s[i] == 'H' && s[i + 1] == 'H' {
            lemma_parse_cal_bounds(s, i + 2);
        } else if i + 2 <= s.len() && s[i] == 'm' && s[i + 1] == 'm' {
            lemma_parse_cal_bounds(s, i + 2);
        } else if i + 2 <= s.len() && s[i] == 'S' && s[i + 1] == 'S' {
            lemma_parse_cal_bounds(s, i + 2);
        }
    }
}

/// The slot format read at `i`: the sequential token, a hash token, or a
/// nonempty calendar run; with the position just past it.
pub open spec fn spec_parse_comp(s: Seq<char>, i: int) -> Option<(NumberFormatV, int)> {
    if 0 <= i && i + 2 <= s.len() && s[i] == 'C' && s[i + 1] == 'C' {
        Some((NumberFormatV::CCVer, i + 2))
    } else if sha_tok_at(s, i) {
        Some((NumberFormatV::Sha, i + 5))
    } else if short_sha_tok_at(s, i) {
        Some((NumberFormatV::ShortSha, i + 11))
    } else {
        let r = spec_parse_cal(s, i);
        if r.0.len() > 0 {
            Some((NumberFormatV::CalVer(r.0), r.1))
        } else {
            None
        }
    }
}

/// The first `.` at or after `i`, if any.
pub open spec fn find_dot(s: Seq<char>, i: int) -> Option<int>
    decreases s.len() - i,
{
    if i < 0 || i >= s.len() {
        None
    } else if s[i] == '.' {
        Some(i)
    } else {
        find_dot(s, i + 1)
    }
}

/// What a successful dot search means.
pub proof fn lemma_find_dot(s: Seq<char>, i: int)
    requires
        0 <= i <= s.len(),
    ensures
        match find_dot(s, i) {
            Some(p) => i <= p < s.len() && s[p] == '.' && forall|j: int| i <= j < p ==> s[j] != '.',
            None => forall|j: int| i <= j < s.len() ==> s[j] != '.',
        },
    decreases s.len() - i,
{
    if i < s.len() && s[i] != '.' {
        lemma_find_dot(s, i + 1);
    }
}

/// The prerelease format read at `i` (just past the `-`): a fixed
/// channel with its counter format, a hash token, or a custom channel
/// name up to the first `.` with its counter format.
pub open spec fn spec_parse_pre(s: Seq<char>, i: int) -> Option<(PreTagFormatV, int)> {
    if 0 <= i && i + 3 <= s.len() && s[i] == 'r' && s[i + 1] == 'c' && s[i + 2] == '.' {
        match spec_parse_comp(s, i + 3) {
            Some((nf, j)) => Some((PreTagFormatV::Rc(nf), j)),
            None => None,
        }
    } else if 0 <= i && i + 5 <= s.len() && s[i] == 'b' && s[i + 1] == 'e' && s[i + 2] == 't'
        && s[i + 3] == 'a' && s[i + 4] == '.' {
        match spec_parse_comp(s, i + 5) {
            Some((nf, j)) => Some((PreTagFormatV::Beta(nf), j)),
            None => None,
        }
    } else if 0 <= i && i + 6 <= s.len() && s[i] == 'a' && s[i + 1] == 'l' && s[i + 2] == 'p'
        && s[i + 3] == 'h' && s[i + 4] == 'a' && s[i + 5] == '.' {
        match spec_parse_comp(s, i + 6) {
            Some((nf, j)) => Some((PreTagFormatV::Alpha(nf), j)),
            None => None,
        }
    } else if 0 <= i && i + 6 <= s.len() && s[i] == 'b' && s[i + 1] == 'u' && s[i + 2] == 'i'
        && s[i + 3] == 'l' && s[i + 4] == 'd' && s[i + 5] == '.' {
        match spec_parse_comp(s, i + 6) {
            Some((nf, j)) => Some((PreTagFormatV::Build(nf), j)),
            None => None,
        }
    } else if sha_tok_at(s, i) {
        Some((PreTagFormatV::Sha, i + 5))
    } else if short_sha_tok_at(s, i) {
        Some((PreTagFormatV::ShortSha, i + 11))
    } else {
        match find_dot(s, i) {
            Some(d) => if d > i {
                match spec_parse_comp(s, d + 1) {
                    Some((nf, j)) => Some((PreTagFormatV::Named(s.subrange(i, d), nf), j)),
                    None => None,
                }
            } else {
                None
            },
            None => None,
        }
    }
}

/// Whether each calendar block of a format is well formed on its own.
pub open spec fn format_blocks_ok(f: VersionFormatV) -> bool {
    &&& match f.major {
        NumberFormatV::CalVer(m) => calver_format_wf(m),
        _ => true,
    }
    &&& match f.minor {
        NumberFormatV::CalVer(m) => calver_format_wf(m),
        _ => true,
    }
    &&& match f.patch {
        NumberFormatV::CalVer(m) => calver_format_wf(m),
        _ => true,
    }
    &&& match f.prerelease {
        Some(p) => match p.version_format() {
            NumberFormatV::CalVer(m) => calver_format_wf(m),
            _ => true,
        },
        None => true,
    }
}

/// The format a format string parses to: `[v]<num>.<num>.<num>[-<pre>]`
/// consuming the whole string, `None` where the string is not of that
/// shape, where a calendar block is not listed most significant first or
/// repeats a segment, or where the most significant calendar block does
/// not open with a year-scale segment.
pub open spec fn spec_parse_version_format(s: Seq<char>) -> Option<VersionFormatV> {
    let start: int = if s.len() > 0 && s[0] == 'v' {
        1
    } else {
        0
    };
    match spec_parse_comp(s, start) {
        None => None,
        Some((maj, i1)) => if i1 < s.len() && s[i1] == '.' {
            match spec_parse_comp(s, i1 + 1) {
                None => None,
                Some((min, i2)) => if i2 < s.len() && s[i2] == '.' {
                    match spec_parse_comp(s, i2 + 1) {
                        None => None,
                        Some((pat, i3)) => {
                            let pre: Option<Option<PreTagFormatV>> = if i3 == s.len() {
                                Some(None)
                            } else if s[i3] == '-' {
                                match spec_parse_pre(s, i3 + 1) {
                                    Some((p, j)) => if j == s.len() {
                                        Some(Some(p))
                                    } else {
                                        None
                                    },
                                    None => None,
                                }
                            } else {
                                None
                            };
                            match pre {
                                None => None,
                                Some(preopt) => {
                                    let f = VersionFormatV {
                                        v_prefix: start == 1,
                                        major: maj,
                                        minor: min,
                                        patch: pat,
                                        prerelease: preopt,
                                    };
                                    if format_blocks_ok(f) && format_calendar_ok(f) {
                                        Some(f)
                                    } else {
                                        None
                                    }
                                },
                            }
                        },
                    }
                } else {
                    None
                },
            }
        } else {
            None
        },
    }
}

/// Reads the calendar segments greedily from `i`.
#[verifier::rlimit(60)]
fn parse_cal_at(chars: &Vec<char>, i: usize) -> (r: (Vec<CalVerFormatSegment>, usize))
    requires
        i <= chars@.len(),
    ensures
        (r.0@, r.1 as int) == spec_parse_cal(chars@, i as int),
        i <= r.1 <= chars@.len(),
    decreases chars@.len() - i,
{
    proof {
        lemma_parse_cal_bounds(chars@, i as int);
    }
    let n = chars.len();
    let seg: Option<(CalVerFormatSegment, usize)> = if n - i >= 4 && chars[i] == 'Y' && chars[i
        + 1] == 'Y' && chars[i + 2] == 'Y' && chars[i + 3] == 'Y' {
        Some((CalVerFormatSegment::Year4, i + 4))
    } else if n - i >= 2 && chars[i] == 'Y' && chars[i + 1] == 'Y' {
        Some((CalVerFormatSegment::Year2, i + 2))
    } else if n - i >= 1 && chars[i] == 'E' {
        Some((CalVerFormatSegment::Epoch, i + 1))
    } else if n - i >= 2 && chars[i] == 'M' && chars[i + 1] == 'M' {
        Some((CalVerFormatSegment::Month, i + 2))
    } else if n - i >= 3 && chars[i] == 'D' && chars[i + 1] == 'D' && chars[i + 2] == 'D' {
        Some((CalVerFormatSegment::DayOfYear, i + 3))
    } else if n - i >= 2 && chars[i] == 'D' && chars[i + 1] == 'D' {
        Some((CalVerFormatSegment::Day, i + 2))
    } else if n - i >= 2 && chars[i] == 'H' && chars[i + 1] == 'H' {
        Some((CalVerFormatSegment::Hour, i + 2))
    } else if n - i >= 2 && chars[i] == 'm' && chars[i + 1] == 'm' {
        Some((CalVerFormatSegment::Minute, i + 2))
    } else if n - i >= 2 && chars[i] == 'S' && chars[i + 1] == 'S' {
        Some((CalVerFormatSegment::Second, i + 2))
    } else {
        None
    };
    match seg {
        None => (Vec::new(), i),
        Some((sg, next)) => {
            let (mut rest, j) = parse_cal_at(chars, next);
            let ghost r0 = rest@;
            rest.insert(0, sg);
            proof {
                assert(rest@ =~= seq![sg] + r0);
                assert((rest@, j as int) == spec_parse_cal(chars@, i as int));
            }
            (rest, j)
        },
    }
}

/// Reads a slot format at `i`.
#[verifier::rlimit(60)]
fn parse_comp_at(chars: &Vec<char>, i: usize) -> (r: Option<(VersionNumberFormat, usize)>)
    requires
        i <= chars@.len(),
    ensures
        match r {
            Some(out) => spec_parse_comp(chars@, i as int) == Some((out.0@, out.1 as int)) && i
                <= out.1 <= chars@.len(),
            None => spec_parse_comp(chars@, i as int) is None,
        },
{
    let n = chars.len();
    if n - i >= 2 && chars[i] == 'C' && chars[i + 1] == 'C' {
        return Some((VersionNumberFormat::CCVer, i + 2));
    }
    if n - i >= 5 && chars[i] == '<' && chars[i + 1] == 's' && chars[i + 2] == 'h' && chars[i + 3]
        == 'a' && chars[i + 4] == '>' {
        return Some((VersionNumberFormat::Sha, i + 5));
    }
    if n - i >= 11 && chars[i] == '<' && chars[i + 1] == 's' && chars[i + 2] == 'h' && chars[i + 3]
        == 'o' && chars[i + 4] == 'r' && chars[i + 5] == 't' && chars[i + 6] == '-' && chars[i + 7]
        == 's' && chars[i + 8] == 'h' && chars[i + 9] == 'a' && chars[i + 10] == '>' {
        return Some((VersionNumberFormat::ShortSha, i + 11));
    }
    let (segs, j) = parse_cal_at(chars, i);
    if segs.len() > 0 {
        Some((VersionNumberFormat::CalVer(segs), j))
    } else {
        None
    }
}

/// Finds the first `.` at or after `i`.
#[verifier::loop_isolation(false)]
fn scan_dot(chars: &Vec<char>, i: usize) -> (r: Option<usize>)
    requires
        i <= chars@.len(),
    ensures
        match r {
            Some(p) => find_dot(chars@, i as int) == Some(p as int) && i <= p < chars@.len(),
            None => find_dot(chars@, i as int) is None,
        },
{
    proof {
        lemma_find_dot(chars@, i as int);
    }
    let mut j = i;
    while j < chars.len()
        invariant
            i <= j <= chars@.len(),
            find_dot(chars@, i as int) == find_dot(chars@, j as int),
        decreases chars@.len() - j,
    {
        if chars[j] == '.' {
            return Some(j);
        }
        j += 1;
    }
    None
}

/// Reads a prerelease format at `i` (just past the `-`).
#[verifier::rlimit(60)]
fn parse_pre_at(s: &str, chars: &Vec<char>, i: usize) -> (r: Option<(PreTagFormat, usize)>)
    requires
        chars@ == s@,
        i <= chars@.len(),
    ensures
        match r {
            Some(out) => spec_parse_pre(chars@, i as int) == Some((out.0@, out.1 as int)),
            None => spec_parse_pre(chars@, i as int) is None,
        },
{
    let n = chars.len();
    if n - i >= 3 && chars[i] == 'r' && chars[i + 1] == 'c' && chars[i + 2] == '.' {
        return match parse_comp_at(chars, i + 3) {
            Some((nf, j)) => Some((PreTagFormat::Rc(nf), j)),
            None => None,
        };
    }
    if n - i >= 5 && chars[i] == 'b' && chars[i + 1] == 'e' && chars[i + 2] == 't' && chars[i + 3]
        == 'a' && chars[i + 4] == '.' {
        return match parse_comp_at(chars, i + 5) {
            Some((nf, j)) => Some((PreTagFormat::Beta(nf), j)),
            None => None,
        };
    }
    if n - i >= 6 && chars[i] == 'a' && chars[i + 1] == 'l' && chars[i + 2] == 'p' && chars[i + 3]
        == 'h' && chars[i + 4] == 'a' && chars[i + 5] == '.' {
        return match parse_comp_at(chars, i + 6) {
            Some((nf, j)) => Some((PreTagFormat::Alpha(nf), j)),
            None => None,
        };
    }
    if n - i >= 6 && chars[i] == 'b' && chars[i + 1] == 'u' && chars[i + 2] == 'i' && chars[i + 3]
        == 'l' && chars[i + 4] == 'd' && chars[i + 5] == '.' {
        return match parse_comp_at(chars, i + 6) {
            Some((nf, j)) => Some((PreTagFormat::Build(nf), j)),
            None => None,
        };
    }
    if n - i >= 5 && chars[i] == '<' && chars[i + 1] == 's' && chars[i + 2] == 'h' && chars[i + 3]
        == 'a' && chars[i + 4] == '>' {
        return Some((PreTagFormat::Sha, i + 5));
    }
    if n - i >= 11 && chars[i] == '<' && chars[i + 1] == 's' && chars[i + 2] == 'h' && chars[i + 3]
        == 'o' && chars[i + 4] == 'r' && chars[i + 5] == 't' && chars[i + 6] == '-' && chars[i + 7]
        == 's' && chars[i + 8] == 'h' && chars[i + 9] == 'a' && chars[i + 10] == '>' {
        return Some((PreTagFormat::ShortSha, i + 11));
    }
    match scan_dot(chars, i) {
        Some(d) => {
            if d > i {
                match parse_comp_at(chars, d + 1) {
                    Some((nf, j)) => {
                        let name = slice_of(s, chars, i, d);
                        Some((PreTagFormat::Named(name, nf), j))
                    },
                    None => None,
                }
            } else {
                None
            }
        },
        None => None,
    }
}

/// Whether a calendar block is well formed on its own.
#[verifier::loop_isolation(false)]
fn segs_ok(segs: &Vec<CalVerFormatSegment>) -> (r: bool)
    ensures
        r == calver_format_wf(segs@),
{
    if segs.len() == 0 {
        return false;
    }
    let mut a: usize = 0;
    while a < segs.len()
        invariant
            a <= segs@.len(),
            forall|i: int, j: int|
                0 <= i < j < segs@.len() && i < a ==> #[trigger] segs@[i].spec_rank()
                    >= #[trigger] segs@[j].spec_rank(),
            forall|i: int, j: int| 0 <= i < j < segs@.len() && i < a ==> segs@[i] != segs@[j],
        decreases segs@.len() - a,
    {
        let mut b: usize = a + 1;
        while b < segs.len()
            invariant
                a + 1 <= b,
                b <= segs@.len() || b == a + 1,
                a < segs@.len(),
                forall|j: int|
                    (a as int) < j < b ==> segs@[a as int].spec_rank() >= (
                    #[trigger] segs@[j]).spec_rank(),
                forall|j: int| (a as int) < j < b ==> segs@[a as int] != segs@[j],
            decreases segs@.len() - b,
        {
            if segs[a].rank() < segs[b].rank() || segs[a] == segs[b] {
                proof {
                    assert(!calver_format_wf(segs@));
                }
                return false;
            }
            b += 1;
        }
        a += 1;
    }
    proof {
        assert(calver_format_wf(segs@));
    }
    true
}

/// Whether a slot's calendar block, if it has one, is well formed.
fn slot_blocks_ok(nf: &VersionNumberFormat) -> (r: bool)
    ensures
        r == match nf@ {
            NumberFormatV::CalVer(m) => calver_format_wf(m),
            _ => true,
        },
{
    match nf {
        VersionNumberFormat::CalVer(m) => segs_ok(m),
        _ => true,
    }
}

/// Parses a version-format string: `[v]<num>.<num>.<num>[-<pre>]`, where
/// a number format is the sequential token `CC`, a hash token, or a run
/// of calendar segments.  Rejects, with a grammar error, strings of any
/// other shape, calendar blocks out of most-significant-first order or
/// with a repeated segment, and formats whose most significant calendar
/// block does not open with a year-scale segment.
#[verifier::rlimit(60)]
pub fn parse_version_format(s: &str) -> (r: Result<VersionFormat, CcError>)
    ensures
        match r {
            Ok(f) => spec_parse_version_format(s@) == Some(f@) && f@.wf() && format_calendar_ok(
                f@,
            ),
            Err(e) => spec_parse_version_format(s@) is None && e is Grammar,
        },
{
    let chars = crate::text::str_chars(s);
    let start: usize = if chars.len() > 0 && chars[0] == 'v' {
        1
    } else {
        0
    };
    let (major, i1) = match parse_comp_at(&chars, start) {
        Some(v) => v,
        None => {
            return Err(CcError::Grammar { pos: start });
        },
    };
    if !(i1 < chars.len() && chars[i1] == '.') {
        return Err(CcError::Grammar { pos: i1 });
    }
    let (minor, i2) = match parse_comp_at(&chars, i1 + 1) {
        Some(v) => v,
        None => {
            return Err(CcError::Grammar { pos: i1 + 1 });
        },
    };
    if !(i2 < chars.len() && chars[i2] == '.') {
        return Err(CcError::Grammar { pos: i2 });
    }
    let (patch, i3) = match parse_comp_at(&chars, i2 + 1) {
        Some(v) => v,
        None => {
            return Err(CcError::Grammar { pos: i2 + 1 });
        },
    };
    let prerelease: Option<PreTagFormat> = if i3 == chars.len() {
        None
    } else if chars[i3] == '-' {
        match parse_pre_at(s, &chars, i3 + 1) {
            Some((p, j)) => {
                if j == chars.len() {
                    Some(p)
                } else {
                    return Err(CcError::Grammar { pos: j });
                }
            },
            None => {
                return Err(CcError::Grammar { pos: i3 + 1 });
            },
        }
    } else {
        return Err(CcError::Grammar { pos: i3 });
    };
    let f = VersionFormat { v_prefix: start == 1, major, minor, patch, prerelease };
    if !slot_blocks_ok(&f.major) {
        return Err(CcError::Grammar { pos: 0 });
    }
    if !slot_blocks_ok(&f.minor) {
        return Err(CcError::Grammar { pos: 0 });
    }
    if !slot_blocks_ok(&f.patch) {
        return Err(CcError::Grammar { pos: 0 });
    }
    match &f.prerelease {
        Some(p) => {
            let pc = p.version_format();
            if !slot_blocks_ok(&pc) {
                return Err(CcError::Grammar { pos: 0 });
            }
        },
        None => {},
    }
    // the most significant calendar block must open with a year segment
    let lead: Option<CalVerFormatSegment> = match &f.major {
        VersionNumberFormat::CalVer(m) => Some(m[0]),
        _ => match &f.minor {
            VersionNumberFormat::CalVer(m) => Some(m[0]),
            _ => match &f.patch {
                VersionNumberFormat::CalVer(m) => Some(m[0]),
                _ => {
                    let pc = match &f.prerelease {
                        Some(p) => Some(p.version_format()),
                        None => None,
                    };
                    match pc {
                        Some(VersionNumberFormat::CalVer(m)) => Some(m[0]),
                        _ => None,
                    }
                },
            },
        },
    };
    match lead {
        Some(sg) => {
            if sg.rank() != 6 {
                proof {
                    assert(!format_calendar_ok(f@));
                }
                return Err(CcError::Grammar { pos: 0 });
            }
        },
        None => {},
    }
    proof {
        assert(format_calendar_ok(f@));
        assert(format_blocks_ok(f@));
        assert(spec_parse_version_format(s@) == Some(f@));
        assert(f@.wf());
    }
    Ok(f)
}

/// The grammar's recognizers gathered under one name, for callers that
/// prefer an associated-function style.
pub struct Parser;

impl Parser {
    /// Parses a subject line.
    pub fn subject(s: &str) -> (r: Subject)
        ensures
            r@ == spec_parse_subject(s@),
    {
        parse_subject(s)
    }

    /// Parses a line as a conventional subject, if it is one.
    pub fn conventional_subject(s: &str) -> (r: Option<ConventionalSubject>)
        ensures
            match r {
                Some(c) => match spec_parse_conventional(s@) {
                    Some((t, scope, bang, desc)) => {
                        &&& c.commit_type@ == t
                        &&& match (&c.scope, scope) {
                            (Some(o), Some(sc)) => o@ == sc,
                            (None, None) => true,
                            _ => false,
                        }
                        &&& c.breaking == bang
                        &&& c.description@ == desc
                    },
                    None => false,
                },
                None => spec_parse_conventional(s@) is None,
            },
    {
        parse_conventional_subject(s)
    }
}

} // verus!
