//! Marker lines: a kind and a commit hash framed so that ordinary prose
//! does not take the same shape.
use vstd::prelude::*;
use crate::error::Error;
use crate::text::{chars_of, is_white_space, lemma_trimmed_unchanged, occurs_at, trim, trimmed};

verus! {

/// The three kinds of marker line.
#[derive(Debug, Clone, Copy, PartialEq, Eq, Structural)]
pub enum MarkerKind {
    SectionBegin,
    SectionEnd,
    Patchset,
}

pub open spec fn magic() -> Seq<char> {
    seq!['@', '@', '@']
}

pub open spec fn sep() -> Seq<char> {
    seq!['~']
}

/// The word that names a kind inside its marker.
pub open spec fn tag(k: MarkerKind) -> Seq<char> {
    match k {
        MarkerKind::SectionBegin => seq!['S', 'E', 'C', 'T', 'I', 'O', 'N', '_', 'B', 'E', 'G', 'I', 'N'],
        MarkerKind::SectionEnd => seq!['S', 'E', 'C', 'T', 'I', 'O', 'N', '_', 'E', 'N', 'D'],
        MarkerKind::Patchset => seq!['P', 'A', 'T', 'C', 'H', 'S', 'E', 'T'],
    }
}

/// The fields of a frame, each led by the separator.
pub open spec fn fields(vs: Seq<Seq<char>>) -> Seq<char>
    decreases vs.len(),
{
    if vs.len() == 0 {
        Seq::empty()
    } else {
        fields(vs.drop_last()) + sep() + vs.last()
    }
}

/// `@@@`, then `~` and each value, then `~@@@`.
pub open spec fn framed(vs: Seq<Seq<char>>) -> Seq<char> {
    magic() + fields(vs) + sep() + magic()
}

/// What every marker of kind `k` starts with.
pub open spec fn marker_prefix(k: MarkerKind) -> Seq<char> {
    magic() + sep() + tag(k) + sep()
}

/// What every marker ends with.
pub open spec fn marker_suffix() -> Seq<char> {
    sep() + magic()
}

/// The marker line of kind `k` for hash `h`.
pub open spec fn encode(k: MarkerKind, h: Seq<char>) -> Seq<char> {
    framed(seq![tag(k), h])
}

/// A commit hash as markers carry it: one or more ASCII letters or digits.
pub open spec fn is_hash(h: Seq<char>) -> bool {
    h.len() > 0 && forall|i: int| 0 <= i < h.len() ==> is_hash_char(#[trigger] h[i])
}

pub open spec fn is_hash_char(c: char) -> bool {
    ('a' <= c && c <= 'z') || ('A' <= c && c <= 'Z') || ('0' <= c && c <= '9')
}

/// Whether the trimmed line `t` starts the way markers of kind `k` do.
pub open spec fn has_marker_shape(k: MarkerKind, t: Seq<char>) -> bool {
    t.len() >= marker_prefix(k).len() && t.subrange(0, marker_prefix(k).len() as int)
        == marker_prefix(k)
}

/// The hash that the trimmed line `t` carries as a whole marker of kind `k`.
pub open spec fn marker_hash(k: MarkerKind, t: Seq<char>) -> Option<Seq<char>> {
    let p = marker_prefix(k).len() as int;
    let h = t.subrange(p, t.len() - 4);
    if has_marker_shape(k, t) && t.len() >= p + 4 && t.subrange(t.len() - 4, t.len() as int)
        == marker_suffix() && is_hash(h) {
        Some(h)
    } else {
        None
    }
}

/// A line of the form `@@@~KIND~hash~@@@`, built by the constructors below.
#[derive(Debug)]
pub struct Marker {
    pub value: String,
}

/// Joins `values` as fields of one frame.
pub fn build(values: &[&str]) -> (r: String)
    ensures
        r@ == framed(values@.map_values(|v: &str| v@)),
{
    let ghost vs = values@.map_values(|v: &str| v@);
    let mut r = String::from_str("@@@");
    proof {
        reveal_strlit("@@@");
        assert(vs.subrange(0, 0) =~= Seq::empty());
    }
    let mut i: usize = 0;
    while i < values.len()
        invariant
            i <= values@.len(),
            vs == values@.map_values(|v: &str| v@),
            r@ == magic() + fields(vs.subrange(0, i as int)),
        decreases values@.len() - i,
    {
        r.append("~");
        r.append(values[i]);
        proof {
            reveal_strlit("~");
            assert(vs.subrange(0, i + 1).drop_last() =~= vs.subrange(0, i as int));
        }
        i = i + 1;
    }
    r.append("~@@@");
    proof {
        reveal_strlit("~@@@");
        assert(vs.subrange(0, i as int) =~= vs);
    }
    r
}

/// The literal of a marker kind's word.
fn tag_str(k: MarkerKind) -> (s: &'static str)
    ensures
        s@ == tag(k),
{
    match k {
        MarkerKind::SectionBegin => {
            proof { reveal_strlit("SECTION_BEGIN"); }
            "SECTION_BEGIN"
        },
        MarkerKind::SectionEnd => {
            proof { reveal_strlit("SECTION_END"); }
            "SECTION_END"
        },
        MarkerKind::Patchset => {
            proof { reveal_strlit("PATCHSET"); }
            "PATCHSET"
        },
    }
}

/// The frame of a marker, unfolded.
pub proof fn lemma_encode(k: MarkerKind, h: Seq<char>)
    ensures
        encode(k, h) == marker_prefix(k) + h + marker_suffix(),
{
    let vs = seq![tag(k), h];
    assert(vs.drop_last() =~= seq![tag(k)]);
    assert(seq![tag(k)].drop_last() =~= Seq::<Seq<char>>::empty());
    assert(fields(Seq::<Seq<char>>::empty()) == Seq::<char>::empty());
    assert(seq![tag(k)].last() == tag(k));
    assert(fields(seq![tag(k)]) =~= Seq::<char>::empty() + sep() + tag(k));
    assert(fields(seq![tag(k)]) =~= sep() + tag(k));
    assert(fields(vs) =~= sep() + tag(k) + sep() + h);
    assert(encode(k, h) =~= marker_prefix(k) + h + marker_suffix());
}

/// What matching the line `line` against kind `k` gives: the hash of a whole
/// marker, nothing for a line of another shape, or the line itself when it
/// starts like a marker of kind `k` and is not one.
pub open spec fn match_spec(k: MarkerKind, line: Seq<char>) -> Result<Option<Seq<char>>, Seq<char>> {
    let t = trimmed(line);
    if !has_marker_shape(k, t) {
        Ok(None)
    } else {
        match marker_hash(k, t) {
            Some(h) => Ok(Some(h)),
            None => Err(line),
        }
    }
}

/// The outcome of a match, over views.
pub open spec fn match_view(r: Result<Option<String>, Error>) -> Result<Option<Seq<char>>, Seq<char>> {
    match r {
        Ok(Some(h)) => Ok(Some(h@)),
        Ok(None) => Ok(None),
        Err(Error::MalformedMarker(l)) => Err(l@),
        Err(_) => Err(Seq::empty()),
    }
}

fn marker_prefix_chars(k: MarkerKind) -> (r: Vec<char>)
    ensures
        r@ == marker_prefix(k),
{
    let mut s = String::from_str("@@@~");
    s.append(tag_str(k));
    s.append("~");
    proof {
        reveal_strlit("@@@~");
        reveal_strlit("~");
        assert(s@ =~= marker_prefix(k));
    }
    chars_of(s.as_str())
}

fn is_hash_char_exec(c: char) -> (b: bool)
    ensures
        b == is_hash_char(c),
{
    ('a' <= c && c <= 'z') || ('A' <= c && c <= 'Z') || ('0' <= c && c <= '9')
}

fn malformed(line: &str) -> (r: Result<Option<String>, Error>)
    ensures
        match_view(r) == Err::<Option<Seq<char>>, Seq<char>>(line@),
        r matches Err(e) && e is MalformedMarker,
{
    Err(Error::MalformedMarker(String::from_str(line)))
}

impl Marker {
    /// Matches the trimmed `line` as a whole against kind `kind`.
    pub fn matches(kind: MarkerKind, line: &str) -> (r: Result<Option<String>, Error>)
        ensures
            match_view(r) == match_spec(kind, line@),
            r matches Err(e) ==> e is MalformedMarker,
    {
        let t = trim(line);
        let tc = chars_of(t);
        let pc = marker_prefix_chars(kind);
        if !occurs_at(&tc, 0, &pc) {
            return Ok(None);
        }
        let p = pc.len();
        let n = tc.len();
        if n < p + 4 {
            return malformed(line);
        }
        let suffix = chars_of("~@@@");
        proof {
            reveal_strlit("~@@@");
            assert(suffix@ =~= marker_suffix());
        }
        if !occurs_at(&tc, n - 4, &suffix) {
            return malformed(line);
        }
        let ghost h = tc@.subrange(p as int, n - 4);
        let mut i: usize = p;
        while i < n - 4
            invariant
                p <= i <= n - 4,
                n == tc@.len(),
                h == tc@.subrange(p as int, n - 4),
                tc@ == trimmed(line@),
                p == marker_prefix(kind).len(),
                has_marker_shape(kind, tc@),
                forall|j: int| p <= j < i ==> is_hash_char(#[trigger] tc@[j]),
            decreases n - 4 - i,
        {
            if !is_hash_char_exec(tc[i]) {
                proof {
                    assert(h[i - p] == tc@[i as int]);
                }
                return malformed(line);
            }
            i = i + 1;
        }
        if p == n - 4 {
            return malformed(line);
        }
        proof {
            assert forall|j: int| 0 <= j < h.len() implies is_hash_char(#[trigger] h[j]) by {
                assert(h[j] == tc@[p + j]);
            }
        }
        let hash = String::from_str(t.substring_char(p, n - 4));
        Ok(Some(hash))
    }

    /// The marker of kind `kind` for `hash`.
    pub fn encode(kind: MarkerKind, hash: &str) -> (r: Self)
        ensures
            r.value@ == encode(kind, hash@),
    {
        let parts = [tag_str(kind), hash];
        let value = build(&parts);
        proof {
            assert(parts@.map_values(|v: &str| v@) =~= seq![tag(kind), hash@]);
        }
        Marker { value }
    }

    /// The marker that opens the section of commit `hash`.
    pub fn section_begin(hash: &str) -> (r: Self)
        ensures
            r.value@ == encode(MarkerKind::SectionBegin, hash@),
    {
        Marker::encode(MarkerKind::SectionBegin, hash)
    }

    /// The marker that closes the section of commit `hash`.
    pub fn section_end(hash: &str) -> (r: Self)
        ensures
            r.value@ == encode(MarkerKind::SectionEnd, hash@),
    {
        Marker::encode(MarkerKind::SectionEnd, hash)
    }

    /// The marker that stands for the diff of commit `hash`.
    pub fn patchset(hash: &str) -> (r: Self)
        ensures
            r.value@ == encode(MarkerKind::Patchset, hash@),
    {
        Marker::encode(MarkerKind::Patchset, hash)
    }
}

} // verus!

verus! {

/// A marker line is its own trim.
pub proof fn lemma_encode_trimmed(k: MarkerKind, h: Seq<char>)
    ensures
        trimmed(encode(k, h)) == encode(k, h),
{
    lemma_encode(k, h);
    let e = encode(k, h);
    assert(e[0] == '@');
    assert(e.last() == '@') by {
        assert(e[e.len() - 1] == marker_suffix()[3]);
    }
    lemma_trimmed_unchanged(e);
}

/// Matching a marker against its own kind gives back its hash.
pub proof fn lemma_match_encoded(k: MarkerKind, h: Seq<char>)
    requires
        is_hash(h),
    ensures
        match_spec(k, encode(k, h)) == Ok::<Option<Seq<char>>, Seq<char>>(Some(h)),
{
    lemma_encode(k, h);
    lemma_encode_trimmed(k, h);
    let e = encode(k, h);
    let p = marker_prefix(k).len() as int;
    assert(e.subrange(0, p) =~= marker_prefix(k));
    assert(e.subrange(e.len() - 4, e.len() as int) =~= marker_suffix());
    assert(e.subrange(p, e.len() - 4) =~= h);
}

/// Marker kinds never match one another's lines.
pub proof fn lemma_match_other_kind(k: MarkerKind, other: MarkerKind, h: Seq<char>)
    requires
        k != other,
    ensures
        match_spec(other, encode(k, h)) == Ok::<Option<Seq<char>>, Seq<char>>(None),
{
    lemma_encode(k, h);
    lemma_encode_trimmed(k, h);
    let e = encode(k, h);
    let q = marker_prefix(other);
    if has_marker_shape(other, e) {
        let i: int = if k == MarkerKind::Patchset || other == MarkerKind::Patchset { 4 } else { 12 };
        assert(e[i] == marker_prefix(k)[i]);
        assert(e.subrange(0, q.len() as int)[i] == q[i]);
    }
}

/// A line whose trimmed form does not begin with `@` is no marker of any kind,
/// well formed or not: prose that avoids that one character at the start of a
/// line can never be taken for structure.
pub proof fn lemma_prose_never_matches(k: MarkerKind, line: Seq<char>)
    requires
        trimmed(line).len() == 0 || trimmed(line)[0] != '@',
    ensures
        match_spec(k, line) == Ok::<Option<Seq<char>>, Seq<char>>(None),
{
    let t = trimmed(line);
    if has_marker_shape(k, t) {
        assert(t.subrange(0, marker_prefix(k).len() as int)[0] == marker_prefix(k)[0]);
    }
}

} // verus!
