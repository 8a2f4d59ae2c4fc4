use diffwita::patchset::{
    determine_filetype, render_patchset, FileChange, FileType, Hunk, Line, LineKind, Markup,
};

fn show(ms: &[Markup]) -> Vec<String> {
    ms.iter()
        .map(|m| match m {
            Markup::Open(t, a) => {
                let attrs: Vec<String> = a.iter().map(|(k, v)| format!("{}={}", k, v)).collect();
                format!("<{} {}>", t, attrs.join(" "))
            },
            Markup::Close(t) => format!("</{}>", t),
            Markup::Text(s) => format!("text:{}", s),
            Markup::Raw(s) => format!("raw:{}", s),
            Markup::Cr => "cr".to_string(),
        })
        .collect()
}

fn line(value: &str, kind: LineKind, no: Option<usize>) -> Line {
    Line { value: value.to_string(), kind, source_line_no: no }
}

fn file(src: &str, dst: &str, hunks: Vec<Hunk>) -> FileChange {
    FileChange { source_file: src.to_string(), target_file: dst.to_string(), hunks }
}

fn hunk(n: usize) -> Hunk {
    Hunk { lines: vec![line(&format!("l{}", n), LineKind::Context, Some(n))] }
}

#[test]
fn classification_by_paths() {
    assert_eq!(determine_filetype(&file("/dev/null", "b/x", vec![])), FileType::New);
    assert_eq!(determine_filetype(&file("a/x", "/dev/null", vec![])), FileType::Deleted);
    assert_eq!(determine_filetype(&file("a/x", "b/y", vec![])), FileType::Moved);
    assert_eq!(determine_filetype(&file("a/x", "b/x", vec![])), FileType::Changed);
    assert_eq!(determine_filetype(&file("/dev/null", "/dev/null", vec![])), FileType::New);
}

#[test]
fn ellipsis_between_hunks_only() {
    let f = file("a/x", "b/x", vec![hunk(1), hunk(20), hunk(40)]);
    let out = show(&render_patchset(&vec![f]));
    let marks: Vec<&String> = out
        .iter()
        .filter(|s| *s == "raw:<div class=ellipsis></div>" || *s == "raw:<div class=\"hunk\">")
        .collect();
    assert_eq!(
        marks,
        vec![
            "raw:<div class=\"hunk\">",
            "raw:<div class=ellipsis></div>",
            "raw:<div class=\"hunk\">",
            "raw:<div class=ellipsis></div>",
            "raw:<div class=\"hunk\">",
        ]
    );
}

#[test]
fn single_hunk_has_no_ellipsis() {
    let out = show(&render_patchset(&vec![file("a/x", "b/x", vec![hunk(3)])]));
    assert!(!out.iter().any(|s| s == "raw:<div class=ellipsis></div>"));
}

#[test]
fn deleted_file_is_header_only() {
    let f = file("a/gone.txt", "/dev/null", vec![hunk(1), hunk(9)]);
    let out = show(&render_patchset(&vec![f]));
    assert_eq!(
        out,
        vec!["cr", "raw:<span class=\"filename deleted\"><code>gone.txt</code></span>"]
    );
}

#[test]
fn moved_file_names_both_paths() {
    let out = show(&render_patchset(&vec![file("a/old.rs", "b/new.rs", vec![])]));
    assert_eq!(
        out,
        vec![
            "cr",
            "raw:<span class=\"filename moved\"><code>old.rs</code> -> <code>new.rs</code></span>",
            "<div class=file class=moved>",
            "cr",
            "</div>",
            "cr",
        ]
    );
}

#[test]
fn lines_are_tagged_and_numbered() {
    let h = Hunk {
        lines: vec![
            line("kept", LineKind::Context, Some(120)),
            line("", LineKind::Removed, Some(121)),
            line("new", LineKind::Added, None),
        ],
    };
    let out = show(&render_patchset(&vec![file("a/f", "b/f", vec![h])]));
    assert_eq!(
        out,
        vec![
            "cr",
            "raw:<span class=\"filename changed\"><code>f</code></span>",
            "<div class=file class=changed>",
            "cr",
            "raw:<div class=\"hunk\">",
            "raw:<p><pre><code>",
            "<span class=context data-lineno=120>",
            "text:kept",
            "</span>",
            "cr",
            "<span class=removed data-lineno=121>",
            "text: ",
            "</span>",
            "cr",
            "<span class=added data-lineno=+>",
            "text:new",
            "</span>",
            "cr",
            "cr",
            "raw:</pre></code></p>",
            "</div>",
            "cr",
            "</div>",
            "cr",
        ]
    );
}

#[test]
fn missing_source_number_shows_zero() {
    let h = Hunk { lines: vec![line("c", LineKind::Context, None)] };
    let out = show(&render_patchset(&vec![file("a/f", "b/f", vec![h])]));
    assert!(out.contains(&"<span class=context data-lineno=0>".to_string()));
}

#[test]
fn empty_diff_renders_nothing() {
    assert!(render_patchset(&vec![]).is_empty());
}
