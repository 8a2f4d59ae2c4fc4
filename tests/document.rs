use diffwita::document::{
    render_patch_reference, render_section, render_section_end, render_section_start,
};
use diffwita::error::Error;
use diffwita::git::{Author, CommitMeta, Log};
use diffwita::parse;
use diffwita::parse::annotate;
use diffwita::patchset::{FileChange, Hunk, Line, LineKind, Markup};
use diffwita::section::{scan, Block};

fn meta(commit: &str, subject: &str) -> CommitMeta {
    CommitMeta {
        commit: commit.to_string(),
        author: Author { name: "A U Thor".to_string(), email: "author@example.com".to_string() },
        date: 1_700_000_000,
        subject: subject.to_string(),
    }
}

fn show(ms: &[Markup]) -> Vec<String> {
    ms.iter()
        .map(|m| match m {
            Markup::Open(t, a) => {
                let attrs: Vec<String> = a.iter().map(|(k, v)| format!("{}={}", k, v)).collect();
                format!("<{} {}>", t, attrs.join(" "))
            },
            Markup::Close(t) => format!("</{}>", t),
            Markup::Text(s) => format!("text:{}", s),
            Markup::Raw(s) => format!("raw:{}", s),
            Markup::Cr => "cr".to_string(),
        })
        .collect()
}

fn line(value: &str, kind: LineKind, no: Option<usize>) -> Line {
    Line { value: value.to_string(), kind, source_line_no: no }
}

#[test]
fn sections_and_framing() {
    let log = Log(vec![meta("c1", "init"), meta("c2", "tweak")]);
    let sections = log.sections(&vec!["first\n".to_string(), "second\n".to_string()]);
    assert_eq!(sections.len(), 2);
    assert_eq!(sections[1].id, 1);
    assert_eq!(sections[1].commit, "c2");
    assert_eq!(sections[1].text, "second\n");
    let framed = annotate(&sections);
    assert_eq!(
        framed[0].text,
        "@@@~SECTION_BEGIN~c1~@@@\nfirst\n@@@~PATCHSET~c1~@@@\n@@@~SECTION_END~c1~@@@\n"
    );
    assert_eq!(parse::concat(&framed), format!("{}{}", framed[0].text, framed[1].text));
}

#[test]
fn concat_of_nothing_is_empty() {
    assert_eq!(parse::concat(&vec![]), "");
}

#[test]
fn round_trip_recovers_hashes() {
    let hashes = ["a1", "b2", "C3", "d4"];
    let log = Log(hashes.iter().map(|h| meta(h, "s")).collect());
    let messages: Vec<String> = hashes
        .iter()
        .map(|h| format!("Subject {}\n\nBody with @ signs ~ and SECTION_END words\n", h))
        .collect();
    let text = parse::concat(&annotate(&log.sections(&messages)));
    let blocks = scan(&text).unwrap();
    let mut starts = vec![];
    let mut open = false;
    for b in &blocks {
        match b {
            Block::SectionStart(h) => {
                assert!(!open);
                open = true;
                starts.push(h.clone());
            },
            Block::SectionEnd => {
                assert!(open);
                open = false;
            },
            _ => {},
        }
    }
    assert!(!open);
    assert_eq!(starts, hashes);
}

#[test]
fn unknown_commit_is_unresolved() {
    let log = Log(vec![meta("c1", "init")]);
    match render_section(&log, "zz9") {
        Err(Error::UnresolvedReference(h)) => assert_eq!(h, "zz9"),
        other => panic!("unexpected {:?}", other),
    }
}

#[test]
fn section_title_shows_short_hash() {
    let out = show(&render_section_start("0123456789abcdef", "Add things"));
    assert_eq!(
        out,
        vec![
            "cr",
            "<section >",
            "cr",
            "<header >",
            "cr",
            "raw:<cite>Add things<span class='commit_hash'><a href='0123456789abcdef'>0123456</a></span></cite>",
            "cr",
            "</header>",
            "cr",
        ]
    );
    assert_eq!(show(&render_section_end()), vec!["cr", "cr", "</section>", "cr"]);
}

#[test]
fn end_to_end_two_commits() {
    let log = Log(vec![meta("c1", "init"), meta("c2", "tweak")]);
    let messages = vec!["init\n".to_string(), "tweak\n".to_string()];
    let diff = |h: &str| -> Vec<FileChange> {
        if h == "c1" {
            vec![FileChange {
                source_file: "/dev/null".to_string(),
                target_file: "b/a.txt".to_string(),
                hunks: vec![Hunk {
                    lines: vec![line("x", LineKind::Added, None), line("y", LineKind::Added, None)],
                }],
            }]
        } else {
            vec![FileChange {
                source_file: "a/a.txt".to_string(),
                target_file: "b/a.txt".to_string(),
                hunks: vec![Hunk {
                    lines: vec![
                        line("x", LineKind::Removed, Some(1)),
                        line("z", LineKind::Added, None),
                        line("y", LineKind::Context, Some(2)),
                    ],
                }],
            }]
        }
    };
    let text = parse::concat(&annotate(&log.sections(&messages)));
    let mut out: Vec<String> = vec![];
    for b in scan(&text).unwrap() {
        match b {
            Block::SectionStart(h) => out.extend(show(&render_section(&log, &h).unwrap())),
            Block::SectionEnd => out.extend(show(&render_section_end())),
            Block::PatchReference(h) => out.extend(show(&render_patch_reference(&diff(&h)))),
            Block::Prose(l) => out.push(format!("prose:{}", l)),
        }
    }
    let titles: Vec<&String> = out.iter().filter(|s| s.starts_with("raw:<cite>")).collect();
    assert_eq!(titles.len(), 2);
    assert!(titles[0].starts_with("raw:<cite>init<"));
    assert!(titles[1].starts_with("raw:<cite>tweak<"));
    let files: Vec<usize> = (0..out.len()).filter(|&i| out[i].starts_with("<div class=file")).collect();
    assert_eq!(files.len(), 2);
    assert_eq!(out[files[0]], "<div class=file class=new>");
    assert_eq!(out[files[0] - 1], "raw:<span class=\"filename new\"><code>a.txt</code></span>");
    assert_eq!(out[files[1]], "<div class=file class=changed>");
    let c1: Vec<&String> = out[files[0]..files[1]].iter().filter(|s| s.starts_with("<span class=")).collect();
    assert_eq!(c1, vec!["<span class=added data-lineno=+>", "<span class=added data-lineno=+>"]);
    let hunks1 = out[files[0]..files[1]].iter().filter(|s| *s == "raw:<div class=\"hunk\">").count();
    assert_eq!(hunks1, 1);
    let c2: Vec<&String> = out[files[1]..].iter().filter(|s| s.starts_with("<span class=")).collect();
    assert_eq!(
        c2,
        vec![
            "<span class=removed data-lineno=1>",
            "<span class=added data-lineno=+>",
            "<span class=context data-lineno=2>",
        ]
    );
    let removed = out.iter().position(|s| s == "<span class=removed data-lineno=1>").unwrap();
    assert_eq!(out[removed + 1], "text:x");
    assert_eq!(out[removed + 5], "text:z");
    assert!(out.iter().position(|s| s.starts_with("raw:<cite>tweak")).unwrap() < removed);
}
