//! Free-standing annotations: any words framed the way markers are.
use vstd::prelude::*;
use crate::markers::{build, encode, framed, MarkerKind};

verus! {

/// A framed line, `@@@~...~@@@`.
#[derive(Debug)]
pub struct Annotation {
    pub value: String,
}

impl Annotation {
    /// `value` framed on its own.
    pub fn new(value: &str) -> (r: Self)
        ensures
            r.value@ == framed(seq![value@]),
    {
        let parts = [value];
        let v = build(&parts);
        proof {
            assert(parts@.map_values(|v: &str| v@) =~= seq![value@]);
        }
        Annotation { value: v }
    }

    /// The annotation that opens the section of commit `hash`.
    pub fn section_begin(hash: &str) -> (r: Self)
        ensures
            r.value@ == encode(MarkerKind::SectionBegin, hash@),
    {
        Annotation { value: crate::markers::Marker::section_begin(hash).value }
    }

    /// The annotation that closes the section of commit `hash`.
    pub fn section_end(hash: &str) -> (r: Self)
        ensures
            r.value@ == encode(MarkerKind::SectionEnd, hash@),
    {
        Annotation { value: crate::markers::Marker::section_end(hash).value }
    }

    /// The annotation that stands for the diff of commit `hash`.
    pub fn patchset(hash: &str) -> (r: Self)
        ensures
            r.value@ == encode(MarkerKind::Patchset, hash@),
    {
        Annotation { value: crate::markers::Marker::patchset(hash).value }
    }
}

} // verus!
