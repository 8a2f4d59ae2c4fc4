//! Line classification: the marker rules that run ahead of prose, and a scan
//! of a whole text with them.
use vstd::prelude::*;
use crate::error::Error;
use crate::markers::{match_spec, Marker, MarkerKind};
use crate::text::{lemma_split_append, push_char, split, lines_of};

verus! {

/// One classified line of the framed text.
#[derive(Debug)]
pub enum Block {
    /// Opens the section of the commit with this hash.
    SectionStart(String),
    /// Closes the open section.
    SectionEnd,
    /// Stands for the diff of the commit with this hash.
    PatchReference(String),
    /// A line left to the prose grammar, as it stood.
    Prose(String),
}

/// A [`Block`] over character sequences.
pub enum BlockView {
    SectionStart(Seq<char>),
    SectionEnd,
    PatchReference(Seq<char>),
    Prose(Seq<char>),
}

impl View for Block {
    type V = BlockView;

    open spec fn view(&self) -> BlockView {
        match self {
            Block::SectionStart(h) => BlockView::SectionStart(h@),
            Block::SectionEnd => BlockView::SectionEnd,
            Block::PatchReference(h) => BlockView::PatchReference(h@),
            Block::Prose(l) => BlockView::Prose(l@),
        }
    }
}

/// The line at fault in an error, if the error is about a line.
pub open spec fn fault(e: Error) -> Seq<char> {
    match e {
        Error::MalformedMarker(l) => l@,
        _ => Seq::empty(),
    }
}

/// What the section rule makes of `line`: a start or an end, nothing, or a
/// malformed line.
pub open spec fn section_rule(line: Seq<char>) -> Result<Option<BlockView>, Seq<char>> {
    match match_spec(MarkerKind::SectionBegin, line) {
        Err(l) => Err(l),
        Ok(Some(h)) => Ok(Some(BlockView::SectionStart(h))),
        Ok(None) => match match_spec(MarkerKind::SectionEnd, line) {
            Err(l) => Err(l),
            Ok(Some(_)) => Ok(Some(BlockView::SectionEnd)),
            Ok(None) => Ok(None),
        },
    }
}

/// What the diff-reference rule makes of `line`.
pub open spec fn patchset_rule(line: Seq<char>) -> Result<Option<BlockView>, Seq<char>> {
    match match_spec(MarkerKind::Patchset, line) {
        Err(l) => Err(l),
        Ok(Some(h)) => Ok(Some(BlockView::PatchReference(h))),
        Ok(None) => Ok(None),
    }
}

/// The rules tried in order, the first that decides wins; a line that no rule
/// takes is prose.
pub open spec fn classify_spec(line: Seq<char>) -> Result<BlockView, Seq<char>> {
    match section_rule(line) {
        Err(l) => Err(l),
        Ok(Some(b)) => Ok(b),
        Ok(None) => match patchset_rule(line) {
            Err(l) => Err(l),
            Ok(Some(b)) => Ok(b),
            Ok(None) => Ok(BlockView::Prose(line)),
        },
    }
}

/// Classifies `ls` in order; the first malformed line stops the scan.
pub open spec fn scan_lines(ls: Seq<Seq<char>>) -> Result<Seq<BlockView>, Seq<char>>
    decreases ls.len(),
{
    if ls.len() == 0 {
        Ok(Seq::empty())
    } else {
        match scan_lines(ls.drop_last()) {
            Err(l) => Err(l),
            Ok(bs) => match classify_spec(ls.last()) {
                Err(l) => Err(l),
                Ok(b) => Ok(bs.push(b)),
            },
        }
    }
}

/// The classified lines of the text `t`.
pub open spec fn scan_spec(t: Seq<char>) -> Result<Seq<BlockView>, Seq<char>> {
    scan_lines(lines_of(t))
}

pub open spec fn rule_view(r: Result<Option<Block>, Error>) -> Result<Option<BlockView>, Seq<char>> {
    match r {
        Ok(Some(b)) => Ok(Some(b@)),
        Ok(None) => Ok(None),
        Err(e) => Err(fault(e)),
    }
}

pub open spec fn block_view(r: Result<Block, Error>) -> Result<BlockView, Seq<char>> {
    match r {
        Ok(b) => Ok(b@),
        Err(e) => Err(fault(e)),
    }
}

pub open spec fn blocks_view(r: Result<Vec<Block>, Error>) -> Result<Seq<BlockView>, Seq<char>> {
    match r {
        Ok(bs) => Ok(bs@.map_values(|b: Block| b@)),
        Err(e) => Err(fault(e)),
    }
}

/// The rule for section begin and end markers.
pub struct SectionScanner;

impl SectionScanner {
    /// Takes `line` when it is a section marker; declines otherwise.
    pub fn run(line: &str) -> (r: Result<Option<Block>, Error>)
        ensures
            rule_view(r) == section_rule(line@),
            r is Err ==> r->Err_0 is MalformedMarker,
    {
        match Marker::matches(MarkerKind::SectionBegin, line) {
            Err(e) => Err(e),
            Ok(Some(h)) => Ok(Some(Block::SectionStart(h))),
            Ok(None) => match Marker::matches(MarkerKind::SectionEnd, line) {
                Err(e) => Err(e),
                Ok(Some(_)) => Ok(Some(Block::SectionEnd)),
                Ok(None) => Ok(None),
            },
        }
    }
}

/// The rule for diff reference markers.
pub struct PatchsetScanner;

impl PatchsetScanner {
    /// Takes `line` when it is a diff reference marker; declines otherwise.
    pub fn run(line: &str) -> (r: Result<Option<Block>, Error>)
        ensures
            rule_view(r) == patchset_rule(line@),
            r is Err ==> r->Err_0 is MalformedMarker,
    {
        match Marker::matches(MarkerKind::Patchset, line) {
            Err(e) => Err(e),
            Ok(Some(h)) => Ok(Some(Block::PatchReference(h))),
            Ok(None) => Ok(None),
        }
    }
}

/// Classifies one line: the marker rules first, then prose.
pub fn classify_line(line: &str) -> (r: Result<Block, Error>)
    ensures
        block_view(r) == classify_spec(line@),
        r is Err ==> r->Err_0 is MalformedMarker,
{
    match SectionScanner::run(line) {
        Err(e) => Err(e),
        Ok(Some(b)) => Ok(b),
        Ok(None) => match PatchsetScanner::run(line) {
            Err(e) => Err(e),
            Ok(Some(b)) => Ok(b),
            Ok(None) => Ok(Block::Prose(String::from_str(line))),
        },
    }
}

/// Once a scan has failed, more lines leave the failure as it was.
pub proof fn lemma_scan_lines_failed(ls: Seq<Seq<char>>, more: Seq<Seq<char>>)
    requires
        scan_lines(ls) is Err,
    ensures
        scan_lines(ls + more) == scan_lines(ls),
    decreases more.len(),
{
    if more.len() == 0 {
        assert(ls + more =~= ls);
    } else {
        lemma_scan_lines_failed(ls, more.drop_last());
        assert((ls + more).drop_last() =~= ls + more.drop_last());
    }
}

/// Scanning two runs of lines one after the other.
pub proof fn lemma_scan_lines_append(a: Seq<Seq<char>>, b: Seq<Seq<char>>)
    requires
        scan_lines(a) is Ok,
    ensures
        scan_lines(a + b) == match scan_lines(b) {
            Ok(bb) => Ok(scan_lines(a)->Ok_0 + bb),
            Err(l) => Err::<Seq<BlockView>, Seq<char>>(l),
        },
    decreases b.len(),
{
    if b.len() == 0 {
        assert(a + b =~= a);
        assert(scan_lines(a)->Ok_0 + Seq::<BlockView>::empty() =~= scan_lines(a)->Ok_0);
    } else {
        lemma_scan_lines_append(a, b.drop_last());
        assert((a + b).drop_last() =~= a + b.drop_last());
        match scan_lines(b.drop_last()) {
            Ok(bb) => {
                match classify_spec(b.last()) {
                    Ok(x) => {
                        assert((scan_lines(a)->Ok_0 + bb).push(x) =~= scan_lines(a)->Ok_0 + bb.push(x));
                    },
                    Err(_) => {},
                }
            },
            Err(_) => {},
        }
    }
}

/// Classifies every line of `text` in order; a malformed marker line stops
/// the scan and is returned.
pub fn scan(text: &str) -> (r: Result<Vec<Block>, Error>)
    ensures
        blocks_view(r) == scan_spec(text@),
        r is Err ==> r->Err_0 is MalformedMarker,
{
    let mut blocks: Vec<Block> = Vec::new();
    let mut cur = String::new();
    let ghost mut done: Seq<Seq<char>> = Seq::empty();
    proof {
        assert(blocks@.map_values(|b: Block| b@) =~= Seq::<BlockView>::empty());
        assert(text@.subrange(0, 0) =~= Seq::<char>::empty());
    }
    for c in it: text.chars()
        invariant
            it.seq() == text@,
            split(text@.subrange(0, it.index() as int)) == (done, cur@),
            scan_lines(done) == Ok::<Seq<BlockView>, Seq<char>>(blocks@.map_values(|b: Block| b@)),
    {
        let ghost pre = text@.subrange(0, it.index() as int);
        proof {
            assert(text@.subrange(0, it.index() + 1).drop_last() =~= pre);
        }
        if c == '\n' {
            let b = classify_line(cur.as_str());
            proof {
                assert(done.push(cur@).drop_last() =~= done);
            }
            match b {
                Err(e) => {
                    proof {
                        let head = text@.subrange(0, it.index() + 1);
                        let rest = text@.subrange(it.index() + 1, text@.len() as int);
                        assert(head + rest =~= text@);
                        lemma_split_append(head, rest);
                        let (d2, o2) = split(rest);
                        lemma_scan_lines_failed(done.push(cur@), if o2.len() == 0 { d2 } else { d2.push(o2) });
                        if o2.len() != 0 {
                            assert((done.push(cur@) + d2).push(o2) =~= done.push(cur@) + d2.push(o2));
                        }
                    }
                    return Err(e);
                },
                Ok(b) => {
                    blocks.push(b);
                    proof {
                        done = done.push(cur@);
                    }
                    cur = String::new();
                },
            }
        } else {
            push_char(&mut cur, c);
        }
        proof {
            assert(blocks@.map_values(|b: Block| b@) =~= scan_lines(done)->Ok_0);
        }
    }
    proof {
        assert(text@.subrange(0, text@.len() as int) =~= text@);
    }
    if cur.unicode_len() > 0 {
        let b = classify_line(cur.as_str());
        match b {
            Err(e) => {
                proof {
                    assert(done.push(cur@).drop_last() =~= done);
                }
                return Err(e);
            },
            Ok(b) => {
                blocks.push(b);
                proof {
                    assert(done.push(cur@).drop_last() =~= done);
                    assert(blocks@.map_values(|b: Block| b@) =~= scan_lines(done.push(cur@))->Ok_0);
                }
            },
        }
    }
    Ok(blocks)
}

} // verus!
