use diffwita::annotations::Annotation;
use diffwita::error::Error;
use diffwita::markers::{build, Marker, MarkerKind};
use diffwita::section::{classify_line, scan, Block, PatchsetScanner, SectionScanner};

#[test]
fn marker_values() {
    assert_eq!(Marker::section_begin("abc123").value, "@@@~SECTION_BEGIN~abc123~@@@");
    assert_eq!(Marker::section_end("abc123").value, "@@@~SECTION_END~abc123~@@@");
    assert_eq!(Marker::patchset("abc123").value, "@@@~PATCHSET~abc123~@@@");
}

#[test]
fn annotation_values() {
    assert_eq!(Annotation::new("hello").value, "@@@~hello~@@@");
    assert_eq!(Annotation::section_begin("f00").value, "@@@~SECTION_BEGIN~f00~@@@");
    assert_eq!(Annotation::section_end("f00").value, "@@@~SECTION_END~f00~@@@");
    assert_eq!(Annotation::patchset("f00").value, "@@@~PATCHSET~f00~@@@");
}

#[test]
fn build_frames_fields() {
    assert_eq!(build(&[]), "@@@~@@@");
    assert_eq!(build(&["a", "b", "c"]), "@@@~a~b~c~@@@");
}

#[test]
fn match_own_kind_returns_hash() {
    for kind in [MarkerKind::SectionBegin, MarkerKind::SectionEnd, MarkerKind::Patchset] {
        let line = Marker::encode(kind, "deadBEEF42").value;
        match Marker::matches(kind, &line) {
            Ok(Some(h)) => assert_eq!(h, "deadBEEF42"),
            other => panic!("unexpected {:?}", other),
        }
    }
}

#[test]
fn match_is_on_the_trimmed_line() {
    match Marker::matches(MarkerKind::Patchset, "  \t@@@~PATCHSET~ab12~@@@ \u{a0}") {
        Ok(Some(h)) => assert_eq!(h, "ab12"),
        other => panic!("unexpected {:?}", other),
    }
}

#[test]
fn match_other_kind_declines() {
    let line = Marker::section_end("abc").value;
    assert!(matches!(Marker::matches(MarkerKind::SectionBegin, &line), Ok(None)));
    assert!(matches!(Marker::matches(MarkerKind::Patchset, &line), Ok(None)));
}

#[test]
fn match_is_anchored_to_the_whole_line() {
    let line = format!("see {} here", Marker::patchset("abc").value);
    assert!(matches!(Marker::matches(MarkerKind::Patchset, &line), Ok(None)));
}

#[test]
fn malformed_markers_are_errors() {
    for line in [
        "@@@~SECTION_BEGIN~",
        "@@@~SECTION_BEGIN~~@@@",
        "@@@~SECTION_BEGIN~ab-cd~@@@",
        "@@@~SECTION_BEGIN~abcd~@@@ trailing",
    ] {
        match Marker::matches(MarkerKind::SectionBegin, line) {
            Err(Error::MalformedMarker(l)) => assert_eq!(l, line),
            other => panic!("unexpected {:?} for {}", other, line),
        }
    }
}

#[test]
fn prose_lines_never_match() {
    let words = ["fix", "the", "@", "~", "SECTION_BEGIN", "PATCHSET", "@@", "a1", "", "#", "*"];
    let mut seed: u64 = 12345;
    for _ in 0..500 {
        let mut line = String::new();
        for _ in 0..6 {
            seed = seed.wrapping_mul(6364136223846793005).wrapping_add(1442695040888963407);
            line.push_str(words[(seed >> 33) as usize % words.len()]);
            line.push(' ');
        }
        let line = format!("x{}", line);
        for kind in [MarkerKind::SectionBegin, MarkerKind::SectionEnd, MarkerKind::Patchset] {
            assert!(matches!(Marker::matches(kind, &line), Ok(None)), "{}", line);
        }
        assert!(matches!(classify_line(&line), Ok(Block::Prose(_))));
    }
}

#[test]
fn scanners_decline_prose() {
    assert!(matches!(SectionScanner::run("just text"), Ok(None)));
    assert!(matches!(PatchsetScanner::run("just text"), Ok(None)));
    assert!(matches!(SectionScanner::run("@@@~PATCHSET~ab~@@@"), Ok(None)));
    assert!(matches!(PatchsetScanner::run("@@@~SECTION_END~ab~@@@"), Ok(None)));
}

#[test]
fn scanners_take_their_markers() {
    match SectionScanner::run("@@@~SECTION_BEGIN~ab~@@@") {
        Ok(Some(Block::SectionStart(h))) => assert_eq!(h, "ab"),
        other => panic!("unexpected {:?}", other),
    }
    assert!(matches!(SectionScanner::run("@@@~SECTION_END~ab~@@@"), Ok(Some(Block::SectionEnd))));
    match PatchsetScanner::run("@@@~PATCHSET~ab~@@@") {
        Ok(Some(Block::PatchReference(h))) => assert_eq!(h, "ab"),
        other => panic!("unexpected {:?}", other),
    }
}

#[test]
fn scan_classifies_each_line() {
    let text = "@@@~SECTION_BEGIN~c1~@@@\nhello\n\n@@@~PATCHSET~c1~@@@\n@@@~SECTION_END~c1~@@@\ntail";
    let blocks = scan(text).unwrap();
    assert_eq!(blocks.len(), 6);
    assert!(matches!(&blocks[0], Block::SectionStart(h) if h == "c1"));
    assert!(matches!(&blocks[1], Block::Prose(l) if l == "hello"));
    assert!(matches!(&blocks[2], Block::Prose(l) if l.is_empty()));
    assert!(matches!(&blocks[3], Block::PatchReference(h) if h == "c1"));
    assert!(matches!(&blocks[4], Block::SectionEnd));
    assert!(matches!(&blocks[5], Block::Prose(l) if l == "tail"));
}

#[test]
fn scan_of_empty_text_is_empty() {
    assert_eq!(scan("").unwrap().len(), 0);
}

#[test]
fn scan_stops_at_malformed_marker() {
    match scan("ok\n@@@~PATCHSET~a b~@@@\n@@@~SECTION_END~~@@@\n") {
        Err(Error::MalformedMarker(l)) => assert_eq!(l, "@@@~PATCHSET~a b~@@@"),
        other => panic!("unexpected {:?}", other),
    }
}
