//! Framing each commit's message with markers and joining the frames into
//! one text.
use vstd::prelude::*;
use crate::git::Section;
use crate::markers::{
    encode, is_hash, lemma_encode, lemma_match_encoded, lemma_match_other_kind, marker_prefix,
    marker_suffix, Marker, MarkerKind,
};
use crate::section::{
    classify_spec, lemma_scan_lines_append, scan_lines, scan_spec, BlockView,
};
use crate::text::{lemma_split_append, lemma_split_append_open, lemma_split_line, lines_of, split};

verus! {

/// The framed text of commit `c` with message `m`: its begin marker, the
/// message, its diff reference and its end marker, each marker on a line of
/// its own after the message.
pub open spec fn annotated(c: Seq<char>, m: Seq<char>) -> Seq<char> {
    encode(MarkerKind::SectionBegin, c) + seq!['\n'] + m + encode(MarkerKind::Patchset, c)
        + seq!['\n'] + encode(MarkerKind::SectionEnd, c) + seq!['\n']
}

/// The texts joined in order.
pub open spec fn joined(ts: Seq<Seq<char>>) -> Seq<char>
    decreases ts.len(),
{
    if ts.len() == 0 {
        Seq::empty()
    } else {
        joined(ts.drop_last()) + ts.last()
    }
}

/// The section `s` with its text framed by its commit's markers.
fn frame(s: &Section) -> (r: Section)
    ensures
        r.id == s.id,
        r.commit@ == s.commit@,
        r.text@ == annotated(s.commit@, s.text@),
{
    let commit = s.commit.as_str();
    let mut text = Marker::section_begin(commit).value;
    text.append("\n");
    text.append(s.text.as_str());
    text.append(Marker::patchset(commit).value.as_str());
    text.append("\n");
    text.append(Marker::section_end(commit).value.as_str());
    text.append("\n");
    proof {
        reveal_strlit("\n");
        assert(text@ =~= annotated(s.commit@, s.text@));
    }
    Section { id: s.id, text, commit: s.commit.clone() }
}

/// Frames the text of every section with its commit's markers.
pub fn annotate(sections: &Vec<Section>) -> (r: Vec<Section>)
    ensures
        r@.len() == sections@.len(),
        forall|i: int| 0 <= i < r@.len() ==> {
            &&& #[trigger] r@[i].id == sections@[i].id
            &&& r@[i].commit@ == sections@[i].commit@
            &&& r@[i].text@ == annotated(sections@[i].commit@, sections@[i].text@)
        },
{
    let mut r: Vec<Section> = Vec::new();
    let mut i: usize = 0;
    while i < sections.len()
        invariant
            i <= sections@.len(),
            r@.len() == i,
            forall|k: int| 0 <= k < i ==> {
                &&& #[trigger] r@[k].id == sections@[k].id
                &&& r@[k].commit@ == sections@[k].commit@
                &&& r@[k].text@ == annotated(sections@[k].commit@, sections@[k].text@)
            },
        decreases sections@.len() - i,
    {
        let framed = frame(&sections[i]);
        let ghost prev = r@;
        let ghost f = framed;
        proof {
            assert(f.id == sections@[i as int].id);
            assert(f.text@ == annotated(sections@[i as int].commit@, sections@[i as int].text@));
        }
        r.push(framed);
        proof {
            assert(r@[i as int] == f);
            assert forall|k: int| 0 <= k < i + 1 implies {
                &&& #[trigger] r@[k].id == sections@[k].id
                &&& r@[k].commit@ == sections@[k].commit@
                &&& r@[k].text@ == annotated(sections@[k].commit@, sections@[k].text@)
            } by {
                if k < i {
                    assert(r@[k] == prev[k]);
                }
            }
        }
        i = i + 1;
    }
    r
}

/// The texts of all sections, in order, as one text.
pub fn concat(sections: &Vec<Section>) -> (r: String)
    ensures
        r@ == joined(sections@.map_values(|s: Section| s.text@)),
{
    let ghost ts = sections@.map_values(|s: Section| s.text@);
    let mut r = String::new();
    proof {
        assert(ts.subrange(0, 0) =~= Seq::<Seq<char>>::empty());
    }
    let mut i: usize = 0;
    while i < sections.len()
        invariant
            i <= sections@.len(),
            ts == sections@.map_values(|s: Section| s.text@),
            r@ == joined(ts.subrange(0, i as int)),
        decreases sections@.len() - i,
    {
        r.append(sections[i].text.as_str());
        proof {
            assert(ts.subrange(0, i + 1).drop_last() =~= ts.subrange(0, i as int));
        }
        i = i + 1;
    }
    proof {
        assert(ts.subrange(0, i as int) =~= ts);
    }
    r
}

} // verus!

verus! {

/// The state after reading `bs` from state `s`: `Some(false)` outside any
/// section, `Some(true)` inside one, `None` once a start came inside a
/// section or an end outside one.
pub open spec fn nest(s: Option<bool>, bs: Seq<BlockView>) -> Option<bool>
    decreases bs.len(),
{
    if bs.len() == 0 {
        s
    } else {
        match nest(s, bs.drop_last()) {
            None => None,
            Some(inside) => match bs.last() {
                BlockView::SectionStart(_) => if inside { None } else { Some(true) },
                BlockView::SectionEnd => if inside { Some(false) } else { None },
                _ => Some(inside),
            },
        }
    }
}

/// The hashes of the section starts among `bs`, in order.
pub open spec fn section_ids(bs: Seq<BlockView>) -> Seq<Seq<char>>
    decreases bs.len(),
{
    if bs.len() == 0 {
        Seq::empty()
    } else {
        match bs.last() {
            BlockView::SectionStart(h) => section_ids(bs.drop_last()).push(h),
            _ => section_ids(bs.drop_last()),
        }
    }
}

/// A classification that neither opens nor closes a section.
pub open spec fn is_plain(r: Result<BlockView, Seq<char>>) -> bool {
    r matches Ok(b) && !(b is SectionStart) && !(b is SectionEnd)
}

/// Every line between the begin and end markers of commit `c` with message
/// `m` (the message's lines, the last of them followed by the diff reference)
/// is classified as prose or as a diff reference.
pub open spec fn plain_message(c: Seq<char>, m: Seq<char>) -> bool {
    let ls = lines_of(m + encode(MarkerKind::Patchset, c));
    forall|k: int| 0 <= k < ls.len() ==> is_plain(#[trigger] classify_spec(ls[k]))
}

/// The text made of the commits `ids` with messages `msgs`, framed and joined.
pub open spec fn assembled(ids: Seq<Seq<char>>, msgs: Seq<Seq<char>>) -> Seq<char> {
    joined(Seq::new(ids.len(), |i: int| annotated(ids[i], msgs[i])))
}

proof fn lemma_encode_no_newline(k: MarkerKind, c: Seq<char>)
    requires
        is_hash(c),
    ensures
        !encode(k, c).contains('\n'),
{
    lemma_encode(k, c);
    let e = encode(k, c);
    let p = marker_prefix(k);
    assert forall|i: int| 0 <= i < e.len() implies e[i] != '\n' by {
        if i < p.len() {
            assert(e[i] == p[i]);
        } else if i < p.len() + c.len() {
            assert(e[i] == c[i - p.len()]);
        } else {
            assert(e[i] == marker_suffix()[i - p.len() - c.len()]);
        }
    }
}

proof fn lemma_section_split(c: Seq<char>, m: Seq<char>)
    requires
        is_hash(c),
    ensures
        split(annotated(c, m)) == (
            seq![encode(MarkerKind::SectionBegin, c)] + lines_of(m + encode(MarkerKind::Patchset, c))
                + seq![encode(MarkerKind::SectionEnd, c)],
            Seq::<char>::empty(),
        ),
{
    let b = encode(MarkerKind::SectionBegin, c);
    let p = encode(MarkerKind::Patchset, c);
    let e = encode(MarkerKind::SectionEnd, c);
    lemma_encode_no_newline(MarkerKind::SectionBegin, c);
    lemma_encode_no_newline(MarkerKind::Patchset, c);
    lemma_encode_no_newline(MarkerKind::SectionEnd, c);
    lemma_split_line(b);
    lemma_split_line(e);
    let body = m + p;
    lemma_split_append_open(m, p);
    lemma_encode(MarkerKind::Patchset, c);
    assert(split(body).1.len() > 0);
    assert(body.push('\n').drop_last() =~= body);
    assert(split(body.push('\n')) == (lines_of(body), Seq::<char>::empty()));
    assert(annotated(c, m) =~= b.push('\n') + body.push('\n') + e.push('\n'));
    lemma_split_append(b.push('\n'), body.push('\n'));
    lemma_split_append(b.push('\n') + body.push('\n'), e.push('\n'));
}

proof fn lemma_nest_append(s: Option<bool>, a: Seq<BlockView>, b: Seq<BlockView>)
    ensures
        nest(s, a + b) == nest(nest(s, a), b),
    decreases b.len(),
{
    if b.len() == 0 {
        assert(a + b =~= a);
    } else {
        lemma_nest_append(s, a, b.drop_last());
        assert((a + b).drop_last() =~= a + b.drop_last());
    }
}

proof fn lemma_ids_append(a: Seq<BlockView>, b: Seq<BlockView>)
    ensures
        section_ids(a + b) == section_ids(a) + section_ids(b),
    decreases b.len(),
{
    if b.len() == 0 {
        assert(a + b =~= a);
        assert(section_ids(a) + section_ids(b) =~= section_ids(a));
    } else {
        lemma_ids_append(a, b.drop_last());
        assert((a + b).drop_last() =~= a + b.drop_last());
        if let BlockView::SectionStart(h) = b.last() {
            assert((section_ids(a) + section_ids(b.drop_last())).push(h) =~= section_ids(a) + section_ids(b));
        }
    }
}

/// Lines that are all plain scan to blocks that keep any section open and
/// start none.
proof fn lemma_scan_plain(ls: Seq<Seq<char>>)
    requires
        forall|k: int| 0 <= k < ls.len() ==> is_plain(#[trigger] classify_spec(ls[k])),
    ensures
        scan_lines(ls) is Ok,
        section_ids(scan_lines(ls)->Ok_0) == Seq::<Seq<char>>::empty(),
        nest(Some(true), scan_lines(ls)->Ok_0) == Some(true),
    decreases ls.len(),
{
    if ls.len() > 0 {
        let init = ls.drop_last();
        assert forall|k: int| 0 <= k < init.len() implies is_plain(#[trigger] classify_spec(init[k])) by {
            assert(init[k] == ls[k]);
        }
        lemma_scan_plain(init);
        assert(is_plain(classify_spec(ls[ls.len() - 1])));
        let bs = scan_lines(ls)->Ok_0;
        assert(bs.drop_last() =~= scan_lines(init)->Ok_0);
    }
}

proof fn lemma_scan_single(l: Seq<char>)
    requires
        classify_spec(l) is Ok,
    ensures
        scan_lines(seq![l]) == Ok::<Seq<BlockView>, Seq<char>>(seq![classify_spec(l)->Ok_0]),
{
    assert(seq![l].drop_last() =~= Seq::<Seq<char>>::empty());
    assert(seq![l].last() == l);
    assert(scan_lines(Seq::<Seq<char>>::empty()) == Ok::<Seq<BlockView>, Seq<char>>(Seq::empty()));
    assert(Seq::<BlockView>::empty().push(classify_spec(l)->Ok_0) =~= seq![classify_spec(l)->Ok_0]);
}

/// The lines of one framed commit scan to one whole section.
proof fn lemma_section_blocks(c: Seq<char>, m: Seq<char>)
    requires
        is_hash(c),
        plain_message(c, m),
    ensures
        split(annotated(c, m)).1.len() == 0,
        scan_lines(split(annotated(c, m)).0) is Ok,
        section_ids(scan_lines(split(annotated(c, m)).0)->Ok_0) == seq![c],
        nest(Some(false), scan_lines(split(annotated(c, m)).0)->Ok_0) == Some(false),
{
    let b = encode(MarkerKind::SectionBegin, c);
    let e = encode(MarkerKind::SectionEnd, c);
    let ls = lines_of(m + encode(MarkerKind::Patchset, c));
    lemma_section_split(c, m);
    lemma_match_encoded(MarkerKind::SectionBegin, c);
    lemma_match_encoded(MarkerKind::SectionEnd, c);
    lemma_match_other_kind(MarkerKind::SectionEnd, MarkerKind::SectionBegin, c);
    assert(classify_spec(b) == Ok::<BlockView, Seq<char>>(BlockView::SectionStart(c)));
    assert(classify_spec(e) == Ok::<BlockView, Seq<char>>(BlockView::SectionEnd));
    lemma_scan_single(b);
    lemma_scan_single(e);
    lemma_scan_plain(ls);
    let mid = scan_lines(ls)->Ok_0;
    lemma_scan_lines_append(seq![b], ls);
    lemma_scan_lines_append(seq![b] + ls, seq![e]);
    let start = seq![BlockView::SectionStart(c)];
    let end = seq![BlockView::SectionEnd];
    let bs = start + mid + end;
    assert(scan_lines(split(annotated(c, m)).0) == Ok::<Seq<BlockView>, Seq<char>>(bs));
    lemma_ids_append(start + mid, end);
    lemma_ids_append(start, mid);
    assert(start.drop_last() =~= Seq::<BlockView>::empty());
    assert(end.drop_last() =~= Seq::<BlockView>::empty());
    assert(start.last() == BlockView::SectionStart(c));
    assert(section_ids(Seq::<BlockView>::empty()) == Seq::<Seq<char>>::empty());
    assert(Seq::<Seq<char>>::empty().push(c) =~= seq![c]);
    assert(section_ids(start) =~= seq![c]);
    assert(section_ids(end) =~= Seq::<Seq<char>>::empty());
    assert(seq![c] + Seq::<Seq<char>>::empty() + Seq::<Seq<char>>::empty() =~= seq![c]);
    lemma_nest_append(Some(false), start + mid, end);
    lemma_nest_append(Some(false), start, mid);
    assert(nest(Some(false), Seq::<BlockView>::empty()) == Some(false));
    assert(nest(Some(true), Seq::<BlockView>::empty()) == Some(true));
    assert(end.last() == BlockView::SectionEnd);
    assert(nest(Some(false), start) == Some(true));
    assert(nest(Some(true), end) == Some(false));
}

/// The framed texts of the first `ids.len()` commits, as lines and blocks.
proof fn lemma_assembled(ids: Seq<Seq<char>>, msgs: Seq<Seq<char>>)
    requires
        ids.len() == msgs.len(),
        forall|i: int| 0 <= i < ids.len() ==> is_hash(#[trigger] ids[i]) && plain_message(ids[i], msgs[i]),
    ensures
        split(assembled(ids, msgs)).1.len() == 0,
        scan_lines(split(assembled(ids, msgs)).0) is Ok,
        section_ids(scan_lines(split(assembled(ids, msgs)).0)->Ok_0) == ids,
        nest(Some(false), scan_lines(split(assembled(ids, msgs)).0)->Ok_0) == Some(false),
    decreases ids.len(),
{
    let n = ids.len();
    let ts = Seq::new(n, |i: int| annotated(ids[i], msgs[i]));
    if n == 0 {
        assert(ts =~= Seq::<Seq<char>>::empty());
        assert(ids =~= Seq::<Seq<char>>::empty());
    } else {
        let pi = ids.drop_last();
        let pm = msgs.drop_last();
        assert forall|i: int| 0 <= i < pi.len() implies is_hash(#[trigger] pi[i]) && plain_message(pi[i], pm[i]) by {
            assert(pi[i] == ids[i]);
            assert(pm[i] == msgs[i]);
        }
        lemma_assembled(pi, pm);
        assert(ts.drop_last() =~= Seq::new((n - 1) as nat, |i: int| annotated(pi[i], pm[i])));
        let prev = assembled(pi, pm);
        let c = ids[n - 1];
        let m = msgs[n - 1];
        assert(is_hash(c) && plain_message(c, m));
        assert(assembled(ids, msgs) == prev + annotated(c, m));
        lemma_section_blocks(c, m);
        lemma_split_append(prev, annotated(c, m));
        let lp = split(prev).0;
        let lc = split(annotated(c, m)).0;
        lemma_scan_lines_append(lp, lc);
        let bp = scan_lines(lp)->Ok_0;
        let bc = scan_lines(lc)->Ok_0;
        lemma_ids_append(bp, bc);
        lemma_nest_append(Some(false), bp, bc);
        assert(pi.push(c) =~= ids);
        assert(pi + seq![c] =~= ids);
    }
}

/// Scanning the framed and joined commits gives back their hashes in order,
/// and sections that close before the next one opens: each section start has
/// exactly one end, before the next start. This holds for hashes that
/// markers can carry, and for messages whose lines the marker rules leave as
/// prose or diff references.
pub proof fn lemma_round_trip(ids: Seq<Seq<char>>, msgs: Seq<Seq<char>>)
    requires
        ids.len() == msgs.len(),
        forall|i: int| 0 <= i < ids.len() ==> is_hash(#[trigger] ids[i]) && plain_message(ids[i], msgs[i]),
    ensures
        scan_spec(assembled(ids, msgs)) is Ok,
        section_ids(scan_spec(assembled(ids, msgs))->Ok_0) == ids,
        nest(Some(false), scan_spec(assembled(ids, msgs))->Ok_0) == Some(false),
{
    lemma_assembled(ids, msgs);
}

} // verus!
