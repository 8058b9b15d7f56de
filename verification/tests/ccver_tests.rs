use ccver::changelog::changelog_from;
use ccver::changelog::classify;
use ccver::changelog::render_changelog;
use ccver::changelog::sort_changes;
use ccver::changelog::ChangeEntry;
use ccver::changelog::ChangeKind;
use ccver::error::CcError;
use ccver::graph::CommitGraph;
use ccver::logs::Decoration;
use ccver::logs::Footer;
use ccver::logs::LogEntry;
use ccver::logs::Logs;
use ccver::logs::Subject;
use ccver::parser::parse_breaking_bang;
use ccver::parser::parse_commit_hashline;
use ccver::parser::parse_conventional_subject;
use ccver::parser::parse_head_dec;
use ccver::parser::parse_timestamp_line;
use ccver::parser::parse_version_format;
use ccver::parser::parse_parent_hashline;
use ccver::parser::parse_scope;
use ccver::parser::parse_scope_section;
use ccver::parser::parse_subject;
use ccver::parser::parse_tag;
use ccver::parser::parse_type;
use ccver::time::civil_fields;
use ccver::time::parse_rfc3339_epoch;
use ccver::version::PreTag;
use ccver::version::Version;
use ccver::version::VersionNumber;
use ccver::version_format::PreTagFormat;
use ccver::version_format::VersionFormat;
use ccver::version_format::VersionNumberFormat;
use ccver::current_version;
use ccver::peek_version;
use ccver::version_map::assign;
use ccver::Order;

fn entry(
    hash: &str,
    branch: &str,
    epoch: u64,
    parents: Vec<&str>,
    subject_line: &str,
    decorations: Vec<Decoration>,
) -> LogEntry {
    LogEntry {
        name: String::from("c"),
        branch: String::from(branch),
        commit_hash: String::from(hash),
        commit_epoch: epoch,
        parent_hashes: parents.into_iter().map(String::from).collect(),
        decorations,
        subject: parse_subject(subject_line),
        footers: Vec::<Footer>::new(),
    }
}

const H1: &str = "1111111111111111111111111111111111111111";
const H2: &str = "2222222222222222222222222222222222222222";
const H3: &str = "3333333333333333333333333333333333333333";

fn seq_format() -> VersionFormat {
    VersionFormat {
        v_prefix: false,
        major: VersionNumberFormat::CCVer,
        minor: VersionNumberFormat::CCVer,
        patch: VersionNumberFormat::CCVer,
        prerelease: None,
    }
}

fn plain(maj: u64, min: u64, pat: u64) -> Version {
    Version {
        v_prefix: false,
        major: VersionNumber::CCVer(maj),
        minor: VersionNumber::CCVer(min),
        patch: VersionNumber::CCVer(pat),
        prerelease: None,
    }
}

#[test]
fn parse_macro() {
    let commit = parse_conventional_subject("test(anotha)!: build").unwrap();
    assert_eq!(commit.commit_type, "test");
    assert_eq!(commit.scope.as_deref(), Some("anotha"));
    assert!(commit.breaking);
    assert_eq!(commit.description, "build");
}

#[test]
fn syntax_tests_test_type() {
    let t = parse_type("feat").unwrap();
    assert_eq!(t, "feat");
}

#[test]
fn syntax_tests_test_scope() {
    let scope = parse_scope("src/data.ts").unwrap();
    assert_eq!(scope, "src/data.ts");
}

#[test]
fn syntax_tests_test_scope_section() {
    let scope_section = parse_scope_section("(src/data.ts)").unwrap();
    assert_eq!(scope_section, "src/data.ts");
}

#[test]
fn syntax_tests_test_breaking_bang() {
    let breaking_bang = parse_breaking_bang("!");
    assert!(breaking_bang);
}

#[test]
fn syntax_tests_test_tag_with_scope_and_breaking() {
    let (commit_type, scope, breaking) = parse_tag("feat(scope)!").unwrap();
    assert_eq!(commit_type, "feat");
    assert_eq!(scope.as_deref(), Some("scope"));
    assert!(breaking);
}

#[test]
fn syntax_tests_test_commit() {
    let commit = parse_conventional_subject("feat(scope)!: title").unwrap();
    assert_eq!(commit.commit_type, "feat");
    assert_eq!(commit.scope.as_deref(), Some("scope"));
    assert!(commit.breaking);
    assert_eq!(commit.description, "title");
}

#[test]
fn syntax_tests_test_headline() {
    let commit = parse_conventional_subject("feat(scope)!: title").unwrap();
    assert_eq!(commit.commit_type, "feat");
    assert_eq!(commit.scope.as_deref(), Some("scope"));
    assert!(commit.breaking);
    assert_eq!(commit.description, "title");
}

#[test]
fn syntax_tests_test_tag_raw_type() {
    let parsed_tag = parse_type("fix").unwrap();
    assert_eq!(parsed_tag, "fix");
}

#[test]
fn syntax_tests_test_tag_type_with_bang() {
    let (commit_type, _, breaking) = parse_tag("fix!").unwrap();
    assert_eq!(commit_type, "fix");
    assert!(breaking);
}

#[test]
fn syntax_tests_test_tag_with_scope() {
    let (commit_type, scope, _) = parse_tag("fix(README.md)").unwrap();
    assert_eq!(commit_type, "fix");
    assert_eq!(scope.as_deref(), Some("README.md"));
}

#[test]
fn syntax_tests_test_commit_hashline() {
    let commit_hashline =
        parse_commit_hashline("b008bebb2c3109e6720a9d7afcb1e654781668cb\n").unwrap();
    assert_eq!(commit_hashline, "b008bebb2c3109e6720a9d7afcb1e654781668cb");
}

#[test]
fn syntax_tests_test_parent_hashline() {
    let parent_hashline = parse_parent_hashline(
        "38aa9cdf8228f03997d0e953d03cb00a2c1be536 38aa9cdf8228f03997d0e953d03cb00a2c1be536\n",
    )
    .unwrap();
    assert_eq!(
        parent_hashline,
        vec![
            "38aa9cdf8228f03997d0e953d03cb00a2c1be536",
            "38aa9cdf8228f03997d0e953d03cb00a2c1be536"
        ]
    );
}

#[test]
fn test_parsing() {
    assert!(parse_version_format("vCC.CC.CC").is_ok());
    assert!(parse_version_format("vCC.CC.CC-rc.CC").is_ok());
    assert!(parse_version_format("YY.MM.DD-test.SS").is_ok());
    assert!(parse_version_format("YYYY.CC.CC-<sha>").is_ok());
    assert!(parse_version_format("vCC.CC.YYMMDD-beta.CC").is_ok());
    parse_version_format("vCC.MM.DD-rc.CC")
        .expect_err("Day before month will not monotonically increase");
    parse_version_format("vCC.MM.DD-rc.CC").expect_err(
        "CalVer format segments must be preceded by a year segment to keep versions increasing",
    );
}

#[test]
fn format_grammar_details() {
    let f = parse_version_format("vCC.CC.CC-rc.CC").unwrap();
    assert!(f.v_prefix);
    assert!(matches!(f.major, VersionNumberFormat::CCVer));
    assert!(matches!(f.prerelease, Some(PreTagFormat::Rc(VersionNumberFormat::CCVer))));
    let f2 = parse_version_format("YYYY.CC.CC-<sha>").unwrap();
    assert!(!f2.v_prefix);
    assert!(matches!(f2.prerelease, Some(PreTagFormat::Sha)));
    // a calendar block out of most-significant-first order is refused
    assert!(parse_version_format("vCC.CC.DDMM").is_err());
    // a repeated segment is refused
    assert!(parse_version_format("vCC.CC.DDDD").is_err());
    // trailing text is refused
    assert!(parse_version_format("vCC.CC.CCx").is_err());
    let f3 = parse_version_format("YY.MM.DD-test.SS").unwrap();
    match f3.prerelease {
        Some(PreTagFormat::Named(name, VersionNumberFormat::CalVer(_))) => {
            assert_eq!(name, "test");
        }
        _ => panic!("expected a named prerelease channel"),
    }
}

#[test]
fn test_head_dec() {
    let head_dec = parse_head_dec("HEAD -> master").unwrap();
    assert_eq!(head_dec, "master");
}

#[test]
fn test_version_ordering() {
    let build_1 = plain(1, 0, 0);
    let mut build_2 = plain(1, 0, 0);
    build_2.prerelease = Some(PreTag::Rc(VersionNumber::CCVer(1)));
    let mut build_3 = plain(1, 0, 0);
    build_3.prerelease = Some(PreTag::Beta(VersionNumber::CCVer(1)));
    let mut build_4 = plain(1, 0, 0);
    build_4.prerelease = Some(PreTag::Alpha(VersionNumber::CCVer(1)));
    let mut build_5 = plain(1, 0, 11);
    build_5.prerelease = Some(PreTag::Alpha(VersionNumber::CCVer(1)));
    let mut build_6 = plain(1, 2, 1);
    build_6.prerelease = Some(PreTag::Build(VersionNumber::CCVer(2)));

    assert_eq!(build_1.compare(&build_2).unwrap(), Order::Greater);
    assert_eq!(build_2.compare(&build_3).unwrap(), Order::Greater);
    assert_eq!(build_3.compare(&build_4).unwrap(), Order::Greater);
    assert_eq!(build_5.compare(&build_1).unwrap(), Order::Greater);
    assert_eq!(build_6.compare(&build_5).unwrap(), Order::Greater);
}

#[test]
fn build_outranks_clean_release() {
    let clean = plain(1, 2, 3);
    let mut with_build = plain(1, 2, 3);
    with_build.prerelease = Some(PreTag::Build(VersionNumber::CCVer(0)));
    assert_eq!(with_build.compare(&clean).unwrap(), Order::Greater);
    assert_eq!(clean.compare(&with_build).unwrap(), Order::Less);
}

#[test]
fn incomparable_numbers_error() {
    let a = plain(1, 0, 0);
    let mut b = plain(1, 0, 0);
    b.major = VersionNumber::Sha(String::from(H1));
    assert_eq!(
        a.compare(&b).unwrap_err(),
        CcError::IncomparableVersionNumbers
    );
}

#[test]
fn three_commit_history_versions() {
    // root(text) -> feat: add-x -> fix: bug, all on main, sequential format
    let logs = Logs {
        entries: vec![
            entry(
                H3,
                "main",
                300,
                vec![H2],
                "fix: bug",
                vec![Decoration::HeadIndicator(String::from("main"))],
            ),
            entry(H2, "main", 200, vec![H1], "feat: add-x", vec![]),
            entry(H1, "main", 100, vec![], "initial import", vec![]),
        ],
    };
    let graph = CommitGraph::build(logs).unwrap();
    let (vm, errs) = assign(&graph, &seq_format()).unwrap();
    assert!(errs.is_empty());
    assert_eq!(*vm.get(2).unwrap(), plain(0, 0, 0));
    assert_eq!(*vm.get(1).unwrap(), plain(0, 1, 0));
    assert_eq!(*vm.get(0).unwrap(), plain(0, 1, 1));
}

#[test]
fn merge_takes_both_parents_into_account() {
    // root -> feat (H2); root -> H3 is not present: instead H3 merges H2
    let logs = Logs {
        entries: vec![
            entry(
                H3,
                "main",
                300,
                vec![H2, H1],
                "plain merge text",
                vec![Decoration::HeadIndicator(String::from("main"))],
            ),
            entry(H2, "main", 200, vec![H1], "feat: add-x", vec![]),
            entry(H1, "main", 100, vec![], "initial import", vec![]),
        ],
    };
    let graph = CommitGraph::build(logs).unwrap();
    let (vm, errs) = assign(&graph, &seq_format()).unwrap();
    assert!(errs.is_empty());
    // a text merge on a release branch is a clean release of the max parent
    assert_eq!(*vm.get(0).unwrap(), plain(0, 1, 0));
}

#[test]
fn low_tag_reports_monotonicity_violation() {
    let logs = Logs {
        entries: vec![
            entry(
                H3,
                "main",
                300,
                vec![H2],
                "docs: note",
                vec![
                    Decoration::HeadIndicator(String::from("main")),
                    Decoration::Tag(ccver::logs::Tag::Version(plain(0, 0, 1))),
                ],
            ),
            entry(H2, "main", 200, vec![H1], "feat: add-x", vec![]),
            entry(H1, "main", 100, vec![], "initial import", vec![]),
        ],
    };
    let graph = CommitGraph::build(logs).unwrap();
    let (vm, errs) = assign(&graph, &seq_format()).unwrap();
    assert_eq!(errs, vec![(0usize, CcError::MonotonicityViolation)]);
    // the tag stays the authoritative version of the node
    assert_eq!(*vm.get(0).unwrap(), plain(0, 0, 1));
}

#[test]
fn high_tag_is_accepted() {
    let logs = Logs {
        entries: vec![
            entry(
                H3,
                "main",
                300,
                vec![H2],
                "docs: note",
                vec![
                    Decoration::HeadIndicator(String::from("main")),
                    Decoration::Tag(ccver::logs::Tag::Version(plain(2, 0, 0))),
                ],
            ),
            entry(H2, "main", 200, vec![H1], "feat: add-x", vec![]),
            entry(H1, "main", 100, vec![], "initial import", vec![]),
        ],
    };
    let graph = CommitGraph::build(logs).unwrap();
    let (vm, errs) = assign(&graph, &seq_format()).unwrap();
    assert!(errs.is_empty());
    assert_eq!(*vm.get(0).unwrap(), plain(2, 0, 0));
}

#[test]
fn missing_head_marker_is_an_error() {
    let logs = Logs {
        entries: vec![entry(H1, "main", 100, vec![], "initial import", vec![])],
    };
    assert_eq!(CommitGraph::build(logs).unwrap_err(), CcError::NoHead);
}

#[test]
fn unresolved_parent_is_an_error() {
    let logs = Logs {
        entries: vec![
            entry(
                H2,
                "main",
                200,
                vec![H1],
                "feat: x",
                vec![Decoration::HeadIndicator(String::from("main"))],
            ),
        ],
    };
    assert_eq!(
        CommitGraph::build(logs).unwrap_err(),
        CcError::UnresolvedParent { child: 0 }
    );
}

#[test]
fn cycle_is_detected() {
    let logs = Logs {
        entries: vec![
            entry(
                H3,
                "main",
                300,
                vec![H2],
                "fix: a",
                vec![Decoration::HeadIndicator(String::from("main"))],
            ),
            entry(H2, "main", 200, vec![H3], "fix: b", vec![]),
            entry(H1, "main", 100, vec![], "initial import", vec![]),
        ],
    };
    let graph = CommitGraph::build(logs).unwrap();
    assert_eq!(
        assign(&graph, &seq_format()).unwrap_err(),
        CcError::CycleDetected
    );
}

#[test]
fn peek_is_deterministic() {
    let logs = Logs {
        entries: vec![
            entry(
                H2,
                "main",
                200,
                vec![H1],
                "feat: add-x",
                vec![Decoration::HeadIndicator(String::from("main"))],
            ),
            entry(H1, "main", 100, vec![], "initial import", vec![]),
        ],
    };
    let graph = CommitGraph::build(logs).unwrap();
    let subject = parse_subject("fix: tighten bolts");
    let g1 = graph.with_speculative_commit(&subject, 500);
    let g2 = graph.with_speculative_commit(&subject, 500);
    let (vm1, e1) = assign(&g1, &seq_format()).unwrap();
    let (vm2, e2) = assign(&g2, &seq_format()).unwrap();
    assert!(e1.is_empty() && e2.is_empty());
    let head1 = g1.headidx();
    let head2 = g2.headidx();
    assert_eq!(vm1.get(head1).unwrap(), vm2.get(head2).unwrap());
    assert_eq!(*vm1.get(head1).unwrap(), plain(0, 1, 1));
}

#[test]
fn prerelease_branch_enters_channel() {
    let fmt = VersionFormat {
        v_prefix: false,
        major: VersionNumberFormat::CCVer,
        minor: VersionNumberFormat::CCVer,
        patch: VersionNumberFormat::CCVer,
        prerelease: Some(PreTagFormat::Rc(VersionNumberFormat::CCVer)),
    };
    let logs = Logs {
        entries: vec![
            entry(
                H2,
                "staging",
                200,
                vec![H1],
                "feat: add-x",
                vec![Decoration::HeadIndicator(String::from("staging"))],
            ),
            entry(H1, "main", 100, vec![], "initial import", vec![]),
        ],
    };
    let graph = CommitGraph::build(logs).unwrap();
    let (vm, errs) = assign(&graph, &fmt).unwrap();
    assert!(errs.is_empty());
    let mut expected = plain(0, 1, 0);
    expected.prerelease = Some(PreTag::Rc(VersionNumber::CCVer(0)));
    assert_eq!(*vm.get(0).unwrap(), expected);
}

#[test]
fn civil_calendar_fields() {
    let stamp = civil_fields(0);
    assert_eq!(stamp.year, 1970);
    assert_eq!(stamp.month, 1);
    assert_eq!(stamp.day, 1);
    assert_eq!(stamp.ordinal, 1);
    assert_eq!(stamp.hour, 0);
    // 2021-03-14T01:59:26 UTC
    let stamp2 = civil_fields(1615687166);
    assert_eq!(stamp2.year, 2021);
    assert_eq!(stamp2.month, 3);
    assert_eq!(stamp2.day, 14);
    assert_eq!(stamp2.hour, 1);
    assert_eq!(stamp2.minute, 59);
    assert_eq!(stamp2.second, 26);
}

#[test]
fn rfc3339_parsing() {
    assert_eq!(parse_rfc3339_epoch("1970-01-01T01:00:00+00:00"), Some(3600));
    assert_eq!(
        parse_rfc3339_epoch("2021-03-14T01:59:26+01:00"),
        Some(1615687166 - 3600)
    );
    assert_eq!(parse_rfc3339_epoch("not a date"), None);
}

#[test]
fn non_conventional_subject_is_text() {
    match parse_subject("just words here") {
        Subject::Text(t) => assert_eq!(t, "just words here"),
        _ => panic!("expected a text subject"),
    }
}

#[test]
fn default_format_is_v_prefixed_build() {
    let fmt = VersionFormat::default();
    assert!(fmt.v_prefix);
    assert!(matches!(fmt.major, VersionNumberFormat::CCVer));
    assert!(matches!(
        fmt.prerelease,
        Some(PreTagFormat::Build(VersionNumberFormat::CCVer))
    ));
}

#[test]
fn test_display_changelog() {
    let entries = vec![
        ChangeEntry {
            kind: ChangeKind::Breaking,
            scope: None,
            description: String::from("Added Emojis"),
            commit_epoch: 3600,
        },
        ChangeEntry {
            kind: ChangeKind::Feature,
            scope: None,
            description: String::from("Temp Removed Emojis"),
            commit_epoch: 7200,
        },
        ChangeEntry {
            kind: ChangeKind::Fix,
            scope: None,
            description: String::from("Fixed Emojis"),
            commit_epoch: 10800,
        },
        ChangeEntry {
            kind: ChangeKind::Named(String::from("docs")),
            scope: Some(String::from("./src/emoji.rs")),
            description: String::from("Documented Emojis"),
            commit_epoch: 14400,
        },
    ];
    let rendered = render_changelog(&entries);
    assert_eq!(
        rendered,
        "# ChangeLog\n\
         ## Breaking Changes\n\
         - (1970-01-01 01:00:00 UTC): Added Emojis\n\
         ## Features\n\
         - (1970-01-01 02:00:00 UTC): Temp Removed Emojis\n\
         ## Fixes\n\
         - (1970-01-01 03:00:00 UTC): Fixed Emojis\n\
         ## docs\n\
         ### ./src/emoji.rs\n\
         - (1970-01-01 04:00:00 UTC): Documented Emojis\n"
    );
}

#[test]
fn changelog_groups_sections_in_order() {
    // breaking, feat, fix with increasing timestamps: the rendered
    // changelog lists Breaking Changes before Features before Fixes,
    // each holding exactly its commit's description
    let raw = vec![
        classify(&parse_subject("fix: z"), 300),
        classify(&parse_subject("breaking: x"), 100),
        classify(&parse_subject("feat: y"), 200),
    ];
    let sorted = sort_changes(&raw);
    let rendered = render_changelog(&sorted);
    assert_eq!(
        rendered,
        "# ChangeLog\n\
         ## Breaking Changes\n\
         - (1970-01-01 00:01:40 UTC): x\n\
         ## Features\n\
         - (1970-01-01 00:03:20 UTC): y\n\
         ## Fixes\n\
         - (1970-01-01 00:05:00 UTC): z\n"
    );
}

#[test]
fn changelog_walk_stops_at_advancing_subjects() {
    // fix(HEAD) <- chore <- text root: the walk collects everything,
    // since neither the chore nor the root advances a version
    let logs = Logs {
        entries: vec![
            entry(
                H3,
                "main",
                300,
                vec![H2],
                "fix: bug",
                vec![Decoration::HeadIndicator(String::from("main"))],
            ),
            entry(H2, "main", 200, vec![H1], "chore: tidy", vec![]),
            entry(H1, "main", 100, vec![], "initial import", vec![]),
        ],
    };
    let graph = CommitGraph::build(logs).unwrap();
    let entries = changelog_from(&graph, graph.headidx()).unwrap();
    assert_eq!(entries.len(), 3);
    assert!(matches!(entries[0].kind, ChangeKind::Fix));
    assert!(matches!(entries[1].kind, ChangeKind::Named(_)));
    assert!(matches!(entries[2].kind, ChangeKind::Misc));

    // feat(parent of HEAD) is advancing: the walk keeps only HEAD
    let logs2 = Logs {
        entries: vec![
            entry(
                H3,
                "main",
                300,
                vec![H2],
                "docs: describe",
                vec![Decoration::HeadIndicator(String::from("main"))],
            ),
            entry(H2, "main", 200, vec![H1], "feat: add-x", vec![]),
            entry(H1, "main", 100, vec![], "initial import", vec![]),
        ],
    };
    let graph2 = CommitGraph::build(logs2).unwrap();
    let entries2 = changelog_from(&graph2, graph2.headidx()).unwrap();
    assert_eq!(entries2.len(), 1);
    assert!(matches!(entries2[0].kind, ChangeKind::Named(_)));
}

#[test]
fn peek_version_composes_the_preview() {
    let logs = Logs {
        entries: vec![
            entry(
                H2,
                "main",
                200,
                vec![H1],
                "feat: add-x",
                vec![Decoration::HeadIndicator(String::from("main"))],
            ),
            entry(H1, "main", 100, vec![], "initial import", vec![]),
        ],
    };
    let graph = CommitGraph::build(logs).unwrap();
    let fmt = seq_format();
    let (vm, errs) = assign(&graph, &fmt).unwrap();
    assert!(errs.is_empty());
    // the preview derives from HEAD's assigned version (0.1.0); the
    // scheme has no prerelease slot, so the preview is clean
    let v1 = peek_version(&graph, &vm, "fix: tighten bolts\n\nbody text", 500, &fmt);
    let v2 = peek_version(&graph, &vm, "fix: tighten bolts\n\nbody text", 500, &fmt);
    assert_eq!(v1, v2);
    assert_eq!(v1, plain(0, 1, 1));
}

#[test]
fn current_version_stamps_a_build() {
    let logs = Logs {
        entries: vec![
            entry(
                H2,
                "main",
                200,
                vec![H1],
                "feat: add-x",
                vec![Decoration::HeadIndicator(String::from("main"))],
            ),
            entry(H1, "main", 100, vec![], "initial import", vec![]),
        ],
    };
    let graph = CommitGraph::build(logs).unwrap();
    let fmt = seq_format();
    let (vm, _) = assign(&graph, &fmt).unwrap();
    let mut expected = plain(0, 1, 0);
    expected.prerelease = Some(PreTag::Build(VersionNumber::CCVer(0)));
    assert_eq!(current_version(&graph, &vm, &fmt, false).unwrap(), expected);
    assert_eq!(current_version(&graph, &vm, &fmt, true).unwrap(), plain(0, 1, 0));
}

#[test]
fn parent_hashline_rejects_bad_shapes() {
    assert_eq!(parse_parent_hashline("\n").unwrap(), Vec::<String>::new());
    assert_eq!(
        parse_parent_hashline(H1).unwrap(),
        vec![String::from(H1)]
    );
    // a short hash, a missing separator, a trailing separator
    assert!(parse_parent_hashline("1111").is_none());
    assert!(parse_parent_hashline(&format!("{}{}", H1, H2)).is_none());
    assert!(parse_parent_hashline(&format!("{} ", H1)).is_none());
}

#[test]
fn timestamp_line_parses_and_bounds() {
    assert_eq!(
        parse_timestamp_line("1970-01-01T01:00:00+00:00\n"),
        Some(3600)
    );
    assert_eq!(
        parse_timestamp_line("2021-03-14T01:59:26+00:00"),
        Some(1615687166)
    );
    // before the epoch: outside the supported range
    assert_eq!(parse_timestamp_line("1969-12-31T23:00:00+00:00"), None);
    assert_eq!(parse_timestamp_line("not a date"), None);
}
