//! The markup of the structural nodes of the document: section openings and
//! closings, and diff references resolved to their diffs.
use vstd::prelude::*;
use crate::error::Error;
use crate::git::{first_index, Log};
use crate::patchset::{
    attrs_view, emit, files_markup, markup_views, render_patchset, FileChange, FileChangeView, Markup,
    MarkupView,
};

verus! {

/// How many characters of a hash a section title shows.
pub const SHORT_HASH: usize = 7;

/// The first characters of a hash, as a title shows it.
pub open spec fn short_hash(h: Seq<char>) -> Seq<char> {
    if h.len() > SHORT_HASH {
        h.subrange(0, SHORT_HASH as int)
    } else {
        h
    }
}

/// The title of the section of commit `h` with subject `s`.
pub open spec fn cite_html(h: Seq<char>, s: Seq<char>) -> Seq<char> {
    "<cite>"@ + s + "<span class='commit_hash'><a href='"@ + h + "'>"@ + short_hash(h)
        + "</a></span></cite>"@
}

pub open spec fn section_start_markup(h: Seq<char>, s: Seq<char>) -> Seq<MarkupView> {
    seq![
        MarkupView::Cr,
        MarkupView::Open("section"@, Seq::empty()),
        MarkupView::Cr,
        MarkupView::Open("header"@, Seq::empty()),
        MarkupView::Cr,
        MarkupView::Raw(cite_html(h, s)),
        MarkupView::Cr,
        MarkupView::Close("header"@),
        MarkupView::Cr,
    ]
}

pub open spec fn section_end_markup() -> Seq<MarkupView> {
    seq![MarkupView::Cr, MarkupView::Cr, MarkupView::Close("section"@), MarkupView::Cr]
}

pub open spec fn patch_reference_markup(fs: Seq<FileChangeView>) -> Seq<MarkupView> {
    seq![
        MarkupView::Cr,
        MarkupView::Open("div"@, seq![("class"@, "patchset"@)]),
        MarkupView::Cr,
    ] + files_markup(fs) + seq![MarkupView::Cr, MarkupView::Close("div"@), MarkupView::Cr]
}

fn no_attrs() -> (a: Vec<(String, String)>)
    ensures
        attrs_view(a@) == Seq::<(Seq<char>, Seq<char>)>::empty(),
{
    let a: Vec<(String, String)> = Vec::new();
    assert(attrs_view(a@) =~= Seq::<(Seq<char>, Seq<char>)>::empty());
    a
}

/// Opens the section of commit `hash`, titled with `subject` and the
/// hash's first characters.
pub fn render_section_start(hash: &str, subject: &str) -> (r: Vec<Markup>)
    ensures
        markup_views(r@) == section_start_markup(hash@, subject@),
{
    let n = hash.unicode_len();
    let short = if n > SHORT_HASH { hash.substring_char(0, SHORT_HASH) } else { hash };
    let mut cite = String::from_str("<cite>");
    cite.append(subject);
    cite.append("<span class='commit_hash'><a href='");
    cite.append(hash);
    cite.append("'>");
    cite.append(short);
    cite.append("</a></span></cite>");
    let mut out: Vec<Markup> = Vec::new();
    proof {
        assert(markup_views(out@) =~= Seq::<MarkupView>::empty());
    }
    emit(&mut out, Markup::Cr);
    emit(&mut out, Markup::Open(String::from_str("section"), no_attrs()));
    emit(&mut out, Markup::Cr);
    emit(&mut out, Markup::Open(String::from_str("header"), no_attrs()));
    emit(&mut out, Markup::Cr);
    emit(&mut out, Markup::Raw(cite));
    emit(&mut out, Markup::Cr);
    emit(&mut out, Markup::Close(String::from_str("header")));
    emit(&mut out, Markup::Cr);
    assert(markup_views(out@) =~= section_start_markup(hash@, subject@));
    out
}

/// Closes the open section.
pub fn render_section_end() -> (r: Vec<Markup>)
    ensures
        markup_views(r@) == section_end_markup(),
{
    let mut out: Vec<Markup> = Vec::new();
    proof {
        assert(markup_views(out@) =~= Seq::<MarkupView>::empty());
    }
    emit(&mut out, Markup::Cr);
    emit(&mut out, Markup::Cr);
    emit(&mut out, Markup::Close(String::from_str("section")));
    emit(&mut out, Markup::Cr);
    assert(markup_views(out@) =~= section_end_markup());
    out
}

/// The diff of a commit, in its own block.
pub fn render_patch_reference(files: &Vec<FileChange>) -> (r: Vec<Markup>)
    ensures
        markup_views(r@) == patch_reference_markup(files@.map_values(|f: FileChange| f@)),
{
    let mut out: Vec<Markup> = Vec::new();
    proof {
        assert(markup_views(out@) =~= Seq::<MarkupView>::empty());
    }
    emit(&mut out, Markup::Cr);
    let attrs = vec![(String::from_str("class"), String::from_str("patchset"))];
    proof {
        assert(attrs_view(attrs@) =~= seq![("class"@, "patchset"@)]);
    }
    emit(&mut out, Markup::Open(String::from_str("div"), attrs));
    emit(&mut out, Markup::Cr);
    let ghost before = markup_views(out@);
    let mut body = render_patchset(files);
    let ghost bv = markup_views(body@);
    out.append(&mut body);
    proof {
        assert(markup_views(out@) =~= before + bv);
    }
    emit(&mut out, Markup::Cr);
    emit(&mut out, Markup::Close(String::from_str("div")));
    emit(&mut out, Markup::Cr);
    assert(markup_views(out@) =~= patch_reference_markup(files@.map_values(|f: FileChange| f@)));
    out
}

/// Opens the section of commit `hash`, its title looked up in `log`; an
/// unresolved reference when `log` holds no such commit.
pub fn render_section(log: &Log, hash: &str) -> (r: Result<Vec<Markup>, Error>)
    ensures
        match first_index(log.hashes(), hash@) {
            Some(i) => r matches Ok(m) && markup_views(m@) == section_start_markup(
                hash@,
                log.0@[i].subject@,
            ),
            None => r matches Err(e) && e matches Error::UnresolvedReference(h) && h@ == hash@,
        },
{
    match log.subject(hash) {
        Ok(subject) => Ok(render_section_start(hash, subject.as_str())),
        Err(e) => Err(e),
    }
}

} // verus!
