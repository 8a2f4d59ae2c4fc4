//! A commit's diff, already decomposed into files, hunks and lines, and its
//! rendering to markup.
use vstd::prelude::*;
use crate::text::push_decimal;
use crate::text::decimal;

verus! {

/// How a line of a hunk changed.
#[derive(Debug, Clone, Copy, PartialEq, Eq, Structural)]
pub enum LineKind {
    Added,
    Removed,
    Context,
}

/// One line of a hunk.
#[derive(Debug)]
pub struct Line {
    pub value: String,
    pub kind: LineKind,
    /// Where the line stood in the old file; meaningful for removed and
    /// context lines.
    pub source_line_no: Option<usize>,
}

/// A contiguous run of changed and context lines.
#[derive(Debug)]
pub struct Hunk {
    pub lines: Vec<Line>,
}

/// One file's change within a commit. Paths carry git's one-letter side
/// prefix (`a/`, `b/`); an absent side is `/dev/null`.
#[derive(Debug)]
pub struct FileChange {
    pub source_file: String,
    pub target_file: String,
    pub hunks: Vec<Hunk>,
}

/// What happened to a file.
#[derive(Debug, Clone, Copy, PartialEq, Eq, Structural)]
pub enum FileType {
    New,
    Deleted,
    Moved,
    Changed,
}

pub struct LineView {
    pub value: Seq<char>,
    pub kind: LineKind,
    pub source_line_no: Option<usize>,
}

pub struct FileChangeView {
    pub source_file: Seq<char>,
    pub target_file: Seq<char>,
    pub hunks: Seq<Seq<LineView>>,
}

impl View for Line {
    type V = LineView;

    open spec fn view(&self) -> LineView {
        LineView { value: self.value@, kind: self.kind, source_line_no: self.source_line_no }
    }
}

impl View for Hunk {
    type V = Seq<LineView>;

    open spec fn view(&self) -> Seq<LineView> {
        self.lines@.map_values(|l: Line| l@)
    }
}

impl View for FileChange {
    type V = FileChangeView;

    open spec fn view(&self) -> FileChangeView {
        FileChangeView {
            source_file: self.source_file@,
            target_file: self.target_file@,
            hunks: self.hunks@.map_values(|h: Hunk| h@),
        }
    }
}

/// One step of markup output. Text is escaped by whoever writes it out; raw
/// markup is written as it is.
#[derive(Debug)]
pub enum Markup {
    Open(String, Vec<(String, String)>),
    Close(String),
    Text(String),
    Raw(String),
    /// A line break, unless output already stands at the start of a line.
    Cr,
}

pub enum MarkupView {
    Open(Seq<char>, Seq<(Seq<char>, Seq<char>)>),
    Close(Seq<char>),
    Text(Seq<char>),
    Raw(Seq<char>),
    Cr,
}

pub open spec fn attrs_view(a: Seq<(String, String)>) -> Seq<(Seq<char>, Seq<char>)> {
    a.map_values(|p: (String, String)| (p.0@, p.1@))
}

impl View for Markup {
    type V = MarkupView;

    open spec fn view(&self) -> MarkupView {
        match self {
            Markup::Open(t, a) => MarkupView::Open(t@, attrs_view(a@)),
            Markup::Close(t) => MarkupView::Close(t@),
            Markup::Text(s) => MarkupView::Text(s@),
            Markup::Raw(s) => MarkupView::Raw(s@),
            Markup::Cr => MarkupView::Cr,
        }
    }
}

pub open spec fn markup_views(v: Seq<Markup>) -> Seq<MarkupView> {
    v.map_values(|m: Markup| m@)
}

/// The path that stands for a side that does not exist.
pub open spec fn absent_file() -> Seq<char> {
    "/dev/null"@
}

/// A path without its side prefix letter, so that both sides compare.
pub open spec fn normalized(p: Seq<char>) -> Seq<char> {
    if p.len() > 0 {
        p.drop_first()
    } else {
        p
    }
}

/// The classification of a file by its two paths.
pub open spec fn classify(source: Seq<char>, target: Seq<char>) -> FileType {
    if source == absent_file() {
        FileType::New
    } else if target == absent_file() {
        FileType::Deleted
    } else if normalized(source) != normalized(target) {
        FileType::Moved
    } else {
        FileType::Changed
    }
}

/// A path as shown: without its two-character side prefix (`a/`, `b/`).
pub open spec fn display_path(p: Seq<char>) -> Seq<char> {
    if p.len() >= 2 {
        p.skip(2)
    } else {
        p
    }
}

pub open spec fn class_word(t: FileType) -> Seq<char> {
    match t {
        FileType::New => "new"@,
        FileType::Deleted => "deleted"@,
        FileType::Moved => "moved"@,
        FileType::Changed => "changed"@,
    }
}

/// The header naming a file, tagged with its classification; both paths for
/// a moved file.
pub open spec fn header_html(f: FileChangeView) -> Seq<char> {
    let src = display_path(f.source_file);
    let dst = display_path(f.target_file);
    match classify(f.source_file, f.target_file) {
        FileType::New => "<span class=\"filename new\"><code>"@ + dst + "</code></span>"@,
        FileType::Deleted => "<span class=\"filename deleted\"><code>"@ + src + "</code></span>"@,
        FileType::Changed => "<span class=\"filename changed\"><code>"@ + dst + "</code></span>"@,
        FileType::Moved => "<span class=\"filename moved\"><code>"@ + src
            + "</code> -> <code>"@ + dst + "</code></span>"@,
    }
}

pub open spec fn hunk_open_html() -> Seq<char> {
    "<div class=\"hunk\">"@
}

pub open spec fn ellipsis_html() -> Seq<char> {
    "<div class=ellipsis></div>"@
}

pub open spec fn pre_open_html() -> Seq<char> {
    "<p><pre><code>"@
}

pub open spec fn pre_close_html() -> Seq<char> {
    "</pre></code></p>"@
}

pub open spec fn line_class(k: LineKind) -> Seq<char> {
    match k {
        LineKind::Added => "added"@,
        LineKind::Removed => "removed"@,
        LineKind::Context => "context"@,
    }
}

/// The line number shown: `+` for an added line, else the source line.
pub open spec fn line_number(l: LineView) -> Seq<char> {
    match l.kind {
        LineKind::Added => "+"@,
        _ => decimal(
            match l.source_line_no {
                Some(n) => n as nat,
                None => 0,
            },
        ),
    }
}

/// An empty line shows as one space, so that it keeps its height.
pub open spec fn shown_text(v: Seq<char>) -> Seq<char> {
    if v.len() > 0 {
        v
    } else {
        " "@
    }
}

pub open spec fn line_markup(l: LineView) -> Seq<MarkupView> {
    seq![
        MarkupView::Open("span"@, seq![("class"@, line_class(l.kind)), ("data-lineno"@, line_number(l))]),
        MarkupView::Text(shown_text(l.value)),
        MarkupView::Close("span"@),
        MarkupView::Cr,
    ]
}

pub open spec fn lines_markup(ls: Seq<LineView>) -> Seq<MarkupView>
    decreases ls.len(),
{
    if ls.len() == 0 {
        Seq::empty()
    } else {
        lines_markup(ls.drop_last()) + line_markup(ls.last())
    }
}

/// One hunk block; every hunk but the first is preceded by an ellipsis.
pub open spec fn hunk_markup(h: Seq<LineView>, first: bool) -> Seq<MarkupView> {
    seq![MarkupView::Cr] + (if first {
        Seq::empty()
    } else {
        seq![MarkupView::Raw(ellipsis_html())]
    }) + seq![MarkupView::Raw(hunk_open_html()), MarkupView::Raw(pre_open_html())]
        + lines_markup(h) + seq![
        MarkupView::Cr,
        MarkupView::Raw(pre_close_html()),
        MarkupView::Close("div"@),
    ]
}

pub open spec fn hunks_markup(hs: Seq<Seq<LineView>>) -> Seq<MarkupView>
    decreases hs.len(),
{
    if hs.len() == 0 {
        Seq::empty()
    } else {
        hunks_markup(hs.drop_last()) + hunk_markup(hs.last(), hs.len() == 1)
    }
}

/// A file: its header, then, unless it was deleted, its hunks in a block
/// tagged with the classification.
pub open spec fn file_markup(f: FileChangeView) -> Seq<MarkupView> {
    let t = classify(f.source_file, f.target_file);
    if t == FileType::Deleted {
        seq![MarkupView::Cr, MarkupView::Raw(header_html(f))]
    } else {
        seq![
            MarkupView::Cr,
            MarkupView::Raw(header_html(f)),
            MarkupView::Open("div"@, seq![("class"@, "file"@), ("class"@, class_word(t))]),
        ] + hunks_markup(f.hunks) + seq![MarkupView::Cr, MarkupView::Close("div"@), MarkupView::Cr]
    }
}

pub open spec fn files_markup(fs: Seq<FileChangeView>) -> Seq<MarkupView>
    decreases fs.len(),
{
    if fs.len() == 0 {
        Seq::empty()
    } else {
        files_markup(fs.drop_last()) + file_markup(fs.last())
    }
}

pub(crate) fn emit(out: &mut Vec<Markup>, m: Markup)
    ensures
        markup_views(final(out)@) == markup_views(old(out)@).push(m@),
{
    let ghost mv = m@;
    out.push(m);
    assert(markup_views(final(out)@) =~= markup_views(old(out)@).push(mv));
}

fn raw(s: &str) -> (m: Markup)
    ensures
        m@ == MarkupView::Raw(s@),
{
    Markup::Raw(String::from_str(s))
}

fn attr(k: &str, v: String) -> (p: (String, String))
    ensures
        p.0@ == k@,
        p.1@ == v@,
{
    (String::from_str(k), v)
}

/// Whether two strings hold the same characters.
fn same_text(a: &str, b: &str) -> (r: bool)
    ensures
        r == (a@ == b@),
{
    let x = String::from_str(a);
    let y = String::from_str(b);
    x == y
}

/// Classifies a file by its two paths.
pub fn determine_filetype(f: &FileChange) -> (r: FileType)
    ensures
        r == classify(f.source_file@, f.target_file@),
{
    let src = f.source_file.as_str();
    let dst = f.target_file.as_str();
    if same_text(src, "/dev/null") {
        FileType::New
    } else if same_text(dst, "/dev/null") {
        FileType::Deleted
    } else {
        let ns = src.unicode_len();
        let nd = dst.unicode_len();
        let a = if ns > 0 { src.substring_char(1, ns) } else { src };
        let b = if nd > 0 { dst.substring_char(1, nd) } else { dst };
        proof {
            if ns > 0 {
                assert(a@ =~= normalized(src@));
            }
            if nd > 0 {
                assert(b@ =~= normalized(dst@));
            }
        }
        if !same_text(a, b) {
            FileType::Moved
        } else {
            FileType::Changed
        }
    }
}

fn display(p: &str) -> (r: &str)
    ensures
        r@ == display_path(p@),
{
    let n = p.unicode_len();
    if n >= 2 {
        let r = p.substring_char(2, n);
        assert(r@ =~= display_path(p@));
        r
    } else {
        p
    }
}

fn header(f: &FileChange, t: FileType) -> (r: String)
    requires
        t == classify(f.source_file@, f.target_file@),
    ensures
        r@ == header_html(f@),
{
    let src = display(f.source_file.as_str());
    let dst = display(f.target_file.as_str());
    let mut r = match t {
        FileType::New => String::from_str("<span class=\"filename new\"><code>").concat(dst),
        FileType::Deleted => String::from_str("<span class=\"filename deleted\"><code>").concat(src),
        FileType::Changed => String::from_str("<span class=\"filename changed\"><code>").concat(dst),
        FileType::Moved => String::from_str("<span class=\"filename moved\"><code>").concat(
            src,
        ).concat("</code> -> <code>").concat(dst),
    };
    r.append("</code></span>");
    r
}

fn class_str(t: FileType) -> (s: &'static str)
    ensures
        s@ == class_word(t),
{
    match t {
        FileType::New => "new",
        FileType::Deleted => "deleted",
        FileType::Moved => "moved",
        FileType::Changed => "changed",
    }
}

fn line_class_str(k: LineKind) -> (s: &'static str)
    ensures
        s@ == line_class(k),
{
    match k {
        LineKind::Added => "added",
        LineKind::Removed => "removed",
        LineKind::Context => "context",
    }
}

/// Renders one line of a hunk.
pub fn render_line(out: &mut Vec<Markup>, l: &Line)
    ensures
        markup_views(final(out)@) == markup_views(old(out)@) + line_markup(l@),
{
    let number = match l.kind {
        LineKind::Added => String::from_str("+"),
        _ => {
            let mut s = String::new();
            let n = match l.source_line_no {
                Some(n) => n,
                None => 0,
            };
            push_decimal(&mut s, n);
            assert(s@ =~= decimal(n as nat));
            s
        },
    };
    let attrs = vec![attr("class", String::from_str(line_class_str(l.kind))), attr("data-lineno", number)];
    let ghost a = attrs@;
    proof {
        assert(attrs_view(a) =~= seq![("class"@, line_class(l.kind)), ("data-lineno"@, line_number(l@))]);
    }
    emit(out, Markup::Open(String::from_str("span"), attrs));
    let text = if l.value.unicode_len() > 0 {
        l.value.clone()
    } else {
        String::from_str(" ")
    };
    emit(out, Markup::Text(text));
    emit(out, Markup::Close(String::from_str("span")));
    emit(out, Markup::Cr);
    assert(markup_views(final(out)@) =~= markup_views(old(out)@) + line_markup(l@));
}

/// Renders one hunk; `first` tells whether an ellipsis must precede it.
pub fn render_hunk(out: &mut Vec<Markup>, h: &Hunk, first: bool)
    ensures
        markup_views(final(out)@) == markup_views(old(out)@) + hunk_markup(h@, first),
{
    let ghost start = markup_views(out@);
    emit(out, Markup::Cr);
    if !first {
        emit(out, raw("<div class=ellipsis></div>"));
    }
    emit(out, raw("<div class=\"hunk\">"));
    emit(out, raw("<p><pre><code>"));
    let ghost before = markup_views(out@);
    let mut i: usize = 0;
    while i < h.lines.len()
        invariant
            i <= h.lines@.len(),
            markup_views(out@) == before + lines_markup(h@.subrange(0, i as int)),
        decreases h.lines@.len() - i,
    {
        render_line(out, &h.lines[i]);
        proof {
            assert(h@.subrange(0, i + 1).drop_last() =~= h@.subrange(0, i as int));
            assert(before + lines_markup(h@.subrange(0, i as int)) + line_markup(h.lines@[i as int]@)
                =~= before + lines_markup(h@.subrange(0, i + 1)));
        }
        i = i + 1;
    }
    proof {
        assert(h@.subrange(0, i as int) =~= h@);
    }
    emit(out, Markup::Cr);
    emit(out, raw("</pre></code></p>"));
    emit(out, Markup::Close(String::from_str("div")));
    assert(markup_views(final(out)@) =~= start + hunk_markup(h@, first));
}

/// Renders one file: header, and the hunks unless the file was deleted.
pub fn render_file(out: &mut Vec<Markup>, f: &FileChange)
    ensures
        markup_views(final(out)@) == markup_views(old(out)@) + file_markup(f@),
{
    let ghost start = markup_views(out@);
    let t = determine_filetype(f);
    emit(out, Markup::Cr);
    emit(out, Markup::Raw(header(f, t)));
    if t == FileType::Deleted {
        assert(markup_views(final(out)@) =~= start + file_markup(f@));
        return;
    }
    let attrs = vec![attr("class", String::from_str("file")), attr("class", String::from_str(class_str(t)))];
    let ghost a = attrs@;
    proof {
        assert(attrs_view(a) =~= seq![("class"@, "file"@), ("class"@, class_word(t))]);
    }
    emit(out, Markup::Open(String::from_str("div"), attrs));
    let ghost before = markup_views(out@);
    let ghost hs = f@.hunks;
    let mut i: usize = 0;
    while i < f.hunks.len()
        invariant
            i <= f.hunks@.len(),
            hs == f@.hunks,
            markup_views(out@) == before + hunks_markup(hs.subrange(0, i as int)),
        decreases f.hunks@.len() - i,
    {
        render_hunk(out, &f.hunks[i], i == 0);
        proof {
            let s = hs.subrange(0, i + 1);
            assert(s.drop_last() =~= hs.subrange(0, i as int));
            assert(s.last() == f.hunks@[i as int]@);
            assert(before + hunks_markup(hs.subrange(0, i as int)) + hunk_markup(s.last(), i == 0)
                =~= before + hunks_markup(s));
        }
        i = i + 1;
    }
    proof {
        assert(hs.subrange(0, i as int) =~= hs);
    }
    emit(out, Markup::Cr);
    emit(out, Markup::Close(String::from_str("div")));
    emit(out, Markup::Cr);
    assert(markup_views(final(out)@) =~= start + file_markup(f@));
}

/// Renders every file of a diff, in order.
pub fn render_patchset(files: &Vec<FileChange>) -> (r: Vec<Markup>)
    ensures
        markup_views(r@) == files_markup(files@.map_values(|f: FileChange| f@)),
{
    let ghost fs = files@.map_values(|f: FileChange| f@);
    let mut out: Vec<Markup> = Vec::new();
    proof {
        assert(markup_views(out@) =~= Seq::<MarkupView>::empty());
        assert(fs.subrange(0, 0) =~= Seq::<FileChangeView>::empty());
    }
    let mut i: usize = 0;
    while i < files.len()
        invariant
            i <= files@.len(),
            fs == files@.map_values(|f: FileChange| f@),
            markup_views(out@) == files_markup(fs.subrange(0, i as int)),
        decreases files@.len() - i,
    {
        render_file(&mut out, &files[i]);
        proof {
            assert(fs.subrange(0, i + 1).drop_last() =~= fs.subrange(0, i as int));
        }
        i = i + 1;
    }
    proof {
        assert(fs.subrange(0, i as int) =~= fs);
    }
    out
}

} // verus!

verus! {

/// The markup steps that mark structure among hunks: a hunk's opening and an
/// ellipsis.
pub open spec fn is_landmark(m: MarkupView) -> bool {
    m == MarkupView::Raw(hunk_open_html()) || m == MarkupView::Raw(ellipsis_html())
}

/// The landmarks of `ms`, in order.
pub open spec fn skeleton(ms: Seq<MarkupView>) -> Seq<MarkupView>
    decreases ms.len(),
{
    if ms.len() == 0 {
        Seq::empty()
    } else if is_landmark(ms.last()) {
        skeleton(ms.drop_last()).push(ms.last())
    } else {
        skeleton(ms.drop_last())
    }
}

/// `n` hunk openings with one ellipsis between each two.
pub open spec fn alternating(n: nat) -> Seq<MarkupView>
    decreases n,
{
    if n == 0 {
        Seq::empty()
    } else if n == 1 {
        seq![MarkupView::Raw(hunk_open_html())]
    } else {
        alternating((n - 1) as nat) + seq![
            MarkupView::Raw(ellipsis_html()),
            MarkupView::Raw(hunk_open_html()),
        ]
    }
}

proof fn lemma_skeleton_append(a: Seq<MarkupView>, b: Seq<MarkupView>)
    ensures
        skeleton(a + b) == skeleton(a) + skeleton(b),
    decreases b.len(),
{
    if b.len() == 0 {
        assert(a + b =~= a);
        assert(skeleton(a) + skeleton(b) =~= skeleton(a));
    } else {
        lemma_skeleton_append(a, b.drop_last());
        assert((a + b).drop_last() =~= a + b.drop_last());
        if is_landmark(b.last()) {
            assert((skeleton(a) + skeleton(b.drop_last())).push(b.last())
                =~= skeleton(a) + skeleton(b));
        }
    }
}

proof fn lemma_skeleton_single(m: MarkupView)
    ensures
        skeleton(seq![m]) == if is_landmark(m) { seq![m] } else { Seq::<MarkupView>::empty() },
{
    assert(seq![m].drop_last() =~= Seq::<MarkupView>::empty());
    assert(seq![m].last() == m);
    assert(seq![m].len() == 1);
    assert(skeleton(Seq::<MarkupView>::empty()) == Seq::<MarkupView>::empty());
    assert(Seq::<MarkupView>::empty().push(m) =~= seq![m]);
    assert(skeleton(seq![m]) == if is_landmark(m) {
        skeleton(seq![m].drop_last()).push(m)
    } else {
        skeleton(seq![m].drop_last())
    });
}

proof fn lemma_skeleton_none(ms: Seq<MarkupView>)
    requires
        forall|k: int| 0 <= k < ms.len() ==> !is_landmark(#[trigger] ms[k]),
    ensures
        skeleton(ms) == Seq::<MarkupView>::empty(),
    decreases ms.len(),
{
    if ms.len() > 0 {
        assert(!is_landmark(ms[ms.len() - 1]));
        lemma_skeleton_none(ms.drop_last());
    }
}

proof fn lemma_skeleton_lines(ls: Seq<LineView>)
    ensures
        skeleton(lines_markup(ls)) == Seq::<MarkupView>::empty(),
    decreases ls.len(),
{
    if ls.len() > 0 {
        lemma_skeleton_lines(ls.drop_last());
        lemma_skeleton_append(lines_markup(ls.drop_last()), line_markup(ls.last()));
        lemma_skeleton_none(line_markup(ls.last()));
        assert(Seq::<MarkupView>::empty() + Seq::<MarkupView>::empty() =~= Seq::<MarkupView>::empty());
    }
}

proof fn lemma_literals_distinct()
    ensures
        pre_open_html() != hunk_open_html(),
        pre_open_html() != ellipsis_html(),
        pre_close_html() != hunk_open_html(),
        pre_close_html() != ellipsis_html(),
        hunk_open_html() != ellipsis_html(),
{
    reveal_strlit("<p><pre><code>");
    reveal_strlit("</pre></code></p>");
    reveal_strlit("<div class=\"hunk\">");
    reveal_strlit("<div class=ellipsis></div>");
    assert(pre_open_html()[1] != hunk_open_html()[1]);
    assert(pre_open_html()[1] != ellipsis_html()[1]);
    assert(pre_close_html()[1] != hunk_open_html()[1]);
    assert(pre_close_html()[1] != ellipsis_html()[1]);
    assert(hunk_open_html()[11] != ellipsis_html()[11]);
}

proof fn lemma_header_no_landmark(f: FileChangeView)
    ensures
        !is_landmark(MarkupView::Raw(header_html(f))),
{
    reveal_strlit("<div class=\"hunk\">");
    reveal_strlit("<div class=ellipsis></div>");
    reveal_strlit("<span class=\"filename new\"><code>");
    reveal_strlit("<span class=\"filename deleted\"><code>");
    reveal_strlit("<span class=\"filename changed\"><code>");
    reveal_strlit("<span class=\"filename moved\"><code>");
    let h = header_html(f);
    assert(h[1] == 's');
    assert(hunk_open_html()[1] == 'd');
    assert(ellipsis_html()[1] == 'd');
}

proof fn lemma_skeleton_hunk(h: Seq<LineView>, first: bool)
    ensures
        skeleton(hunk_markup(h, first)) == if first {
            seq![MarkupView::Raw(hunk_open_html())]
        } else {
            seq![MarkupView::Raw(ellipsis_html()), MarkupView::Raw(hunk_open_html())]
        },
{
    lemma_literals_distinct();
    let a = seq![MarkupView::Cr];
    let b: Seq<MarkupView> = if first { Seq::empty() } else { seq![MarkupView::Raw(ellipsis_html())] };
    let c = seq![MarkupView::Raw(hunk_open_html()), MarkupView::Raw(pre_open_html())];
    let l = lines_markup(h);
    let d = seq![MarkupView::Cr, MarkupView::Raw(pre_close_html()), MarkupView::Close("div"@)];
    lemma_skeleton_append(a + b + c + l, d);
    lemma_skeleton_append(a + b + c, l);
    lemma_skeleton_append(a + b, c);
    lemma_skeleton_append(a, b);
    lemma_skeleton_lines(h);
    lemma_skeleton_none(a);
    lemma_skeleton_none(d);
    assert(c =~= seq![MarkupView::Raw(hunk_open_html())] + seq![MarkupView::Raw(pre_open_html())]);
    lemma_skeleton_append(seq![MarkupView::Raw(hunk_open_html())], seq![MarkupView::Raw(pre_open_html())]);
    lemma_skeleton_single(MarkupView::Raw(hunk_open_html()));
    lemma_skeleton_single(MarkupView::Raw(pre_open_html()));
    assert(skeleton(c) =~= seq![MarkupView::Raw(hunk_open_html())]);
    if !first {
        lemma_skeleton_single(MarkupView::Raw(ellipsis_html()));
        assert(skeleton(b) =~= b);
    } else {
        assert(skeleton(b) =~= Seq::<MarkupView>::empty());
    }
    assert(skeleton(hunk_markup(h, first)) =~= skeleton(b) + skeleton(c));
}

proof fn lemma_skeleton_hunks(hs: Seq<Seq<LineView>>)
    ensures
        skeleton(hunks_markup(hs)) == alternating(hs.len()),
    decreases hs.len(),
{
    if hs.len() > 0 {
        lemma_skeleton_hunks(hs.drop_last());
        lemma_skeleton_append(hunks_markup(hs.drop_last()), hunk_markup(hs.last(), hs.len() == 1));
        lemma_skeleton_hunk(hs.last(), hs.len() == 1);
        if hs.len() == 1 {
            assert(Seq::<MarkupView>::empty() + seq![MarkupView::Raw(hunk_open_html())]
                =~= alternating(1));
        }
    }
}

proof fn lemma_alternating(n: nat)
    requires
        n > 0,
    ensures
        alternating(n).len() == 2 * n - 1,
        forall|k: int| 0 <= k < 2 * n - 1 ==> #[trigger] alternating(n)[k] == if k % 2 == 0 {
            MarkupView::Raw(hunk_open_html())
        } else {
            MarkupView::Raw(ellipsis_html())
        },
    decreases n,
{
    if n > 1 {
        lemma_alternating((n - 1) as nat);
        let prev = alternating((n - 1) as nat);
        assert forall|k: int| 0 <= k < 2 * n - 1 implies #[trigger] alternating(n)[k] == if k % 2 == 0 {
            MarkupView::Raw(hunk_open_html())
        } else {
            MarkupView::Raw(ellipsis_html())
        } by {
            if k < 2 * n - 3 {
                assert(alternating(n)[k] == prev[k]);
            }
        }
    }
}

/// In the markup of a file that was not deleted and has `n > 1` hunks, the
/// hunk openings and ellipses come as opening, ellipsis, opening, ...,
/// opening: `n` openings and exactly `n - 1` ellipses, each strictly between
/// two hunk blocks.
pub proof fn lemma_ellipsis_placement(f: FileChangeView)
    requires
        classify(f.source_file, f.target_file) != FileType::Deleted,
        f.hunks.len() > 1,
    ensures
        skeleton(file_markup(f)).len() == 2 * f.hunks.len() - 1,
        forall|k: int| 0 <= k < skeleton(file_markup(f)).len() ==>
            #[trigger] skeleton(file_markup(f))[k] == if k % 2 == 0 {
                MarkupView::Raw(hunk_open_html())
            } else {
                MarkupView::Raw(ellipsis_html())
            },
{
    let t = classify(f.source_file, f.target_file);
    let a = seq![
        MarkupView::Cr,
        MarkupView::Raw(header_html(f)),
        MarkupView::Open("div"@, seq![("class"@, "file"@), ("class"@, class_word(t))]),
    ];
    let d = seq![MarkupView::Cr, MarkupView::Close("div"@), MarkupView::Cr];
    lemma_header_no_landmark(f);
    lemma_skeleton_none(a);
    lemma_skeleton_none(d);
    lemma_skeleton_append(a + hunks_markup(f.hunks), d);
    lemma_skeleton_append(a, hunks_markup(f.hunks));
    lemma_skeleton_hunks(f.hunks);
    lemma_alternating(f.hunks.len());
    assert(skeleton(file_markup(f)) =~= alternating(f.hunks.len()));
}

/// A deleted file renders as its header alone: no hunk block and no ellipsis.
pub proof fn lemma_deleted_file(f: FileChangeView)
    requires
        classify(f.source_file, f.target_file) == FileType::Deleted,
    ensures
        file_markup(f) == seq![MarkupView::Cr, MarkupView::Raw(header_html(f))],
        skeleton(file_markup(f)) == Seq::<MarkupView>::empty(),
{
    lemma_header_no_landmark(f);
    lemma_skeleton_none(file_markup(f));
}

/// A file is new exactly when its source is absent, deleted exactly when its
/// target is, moved exactly when neither is and the paths differ once
/// normalised, and changed otherwise. (A change with both sides absent counts
/// as new.)
pub proof fn lemma_classification(source: Seq<char>, target: Seq<char>)
    requires
        !(source == absent_file() && target == absent_file()),
    ensures
        (classify(source, target) == FileType::New) == (source == absent_file()),
        (classify(source, target) == FileType::Deleted) == (target == absent_file()),
        (classify(source, target) == FileType::Moved) == (source != absent_file()
            && target != absent_file() && normalized(source) != normalized(target)),
        (classify(source, target) == FileType::Changed) == (source != absent_file()
            && target != absent_file() && normalized(source) == normalized(target)),
{
}

} // verus!
