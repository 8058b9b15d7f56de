pub mod changelog;
pub mod error;
pub mod graph;
pub mod logs;
pub mod parser;
pub mod text;
pub mod version;
pub mod version_map;
pub mod time;
pub mod version_format;

use vstd::prelude::*;

verus! {

/// A version ordering outcome: the three-way result of comparing two
/// versions that share a representation.
#[derive(Clone, Copy, Debug, PartialEq, Eq, Structural)]
pub enum Order {
    Less,
    Equal,
    Greater,
}

/// The view of the version a hypothetical next commit would receive:
/// the commit's subject is the parsed first line of the message, its
/// record sits on HEAD with the given timestamp, and its version derives
/// from HEAD's assigned version (or from the scheme's starting version
/// where HEAD has none); a scheme without a prerelease slot drops the
/// prerelease from the preview.
pub open spec fn spec_peek_version(
    g: graph::GraphV,
    vm: Seq<Option<version::VersionV>>,
    msg: Seq<char>,
    ts: u64,
    f: version_format::VersionFormatV,
) -> version::VersionV {
    let entry = graph::peek_entry_v(g, parser::spec_parse_subject(parser::spec_first_line(msg)), ts);
    let next = match vm[g.head] {
        Some(v) => version::spec_next_version(v, entry, f),
        None => version::spec_default_version(f, entry),
    };
    if f.prerelease is None {
        version::VersionV { prerelease: None, ..next }
    } else {
        next
    }
}

/// Previews the version the next commit would receive, were it made now
/// with the given message, without touching the graph or the map.  Two
/// calls with the same graph, map, message and timestamp return the same
/// version.
pub fn peek_version(
    g: &graph::CommitGraph,
    vm: &version_map::VersionMap,
    message: &str,
    ts: u64,
    version_format: &version_format::VersionFormat,
) -> (r: version::Version)
    requires
        g@.wf(),
        vm@.len() == g@.nodes.len(),
        ts <= time::MAX_EPOCH_SECS,
    ensures
        r@ == spec_peek_version(g@, vm@, message@, ts, version_format@),
{
    let line = parser::first_line(message);
    let subject = parser::parse_subject(line.as_str());
    let entry = g.peek_entry(&subject, ts);
    let next = match vm.get(g.headidx()) {
        Some(v) => v.next_version(&entry, version_format),
        None => version_format.as_default_version(&entry),
    };
    match &version_format.prerelease {
        None => next.no_pre(),
        Some(_) => next,
    }
}

/// The view of the working version at HEAD: HEAD's assigned version
/// stamped with a build step, and released clean when the prerelease is
/// suppressed; nothing where HEAD was not assigned a version.
pub open spec fn spec_current_version(
    g: graph::GraphV,
    vm: Seq<Option<version::VersionV>>,
    f: version_format::VersionFormatV,
    no_pre: bool,
) -> Option<version::VersionV> {
    match vm[g.head] {
        None => None,
        Some(h) => {
            let built = version::spec_channel(h, g.nodes[g.head], f, version::Channel::Build);
            if no_pre {
                Some(version::spec_release(built, g.nodes[g.head], f))
            } else {
                Some(built)
            }
        },
    }
}

/// The working version at HEAD: the assigned version advanced one build
/// step, released clean when `no_pre` asks for it.  `None` exactly when
/// HEAD carries no assigned version (its error is in the engine's
/// report); the caller decides how to fail then.
pub fn current_version(
    g: &graph::CommitGraph,
    vm: &version_map::VersionMap,
    version_format: &version_format::VersionFormat,
    no_pre: bool,
) -> (r: Option<version::Version>)
    requires
        g@.wf(),
        vm@.len() == g@.nodes.len(),
    ensures
        match r {
            Some(v) => spec_current_version(g@, vm@, version_format@, no_pre) == Some(v@),
            None => spec_current_version(g@, vm@, version_format@, no_pre) is None,
        },
{
    let head_entry = g.head();
    match vm.get(g.headidx()) {
        None => None,
        Some(h) => {
            let built = h.build(head_entry, version_format);
            if no_pre {
                Some(built.release(head_entry, version_format))
            } else {
                Some(built)
            }
        },
    }
}

} // verus!
