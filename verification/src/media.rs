use vstd::prelude::*;

verus! {

/// A clipboard data format, as much of a media type as the negotiation
/// logic reads: the essence string (type and subtype, e.g. `text/plain`)
/// used as the interned format name, and whether the type is UTF-8 text —
/// `text/plain` with no charset parameter or with charset `utf-8` — which
/// is what entitles it to the legacy text-format aliases.
#[derive(Debug, Clone, PartialEq, Eq)]
pub struct MediaType {
    essence: Vec<u8>,
    utf8_text: bool,
}

/// Mathematical view of a media type.
pub struct MediaTypeView {
    pub essence: Seq<u8>,
    pub utf8_text: bool,
}

impl View for MediaType {
    type V = MediaTypeView;

    closed spec fn view(&self) -> MediaTypeView {
        MediaTypeView { essence: self.essence@, utf8_text: self.utf8_text }
    }
}

impl MediaType {
    pub fn new(essence: Vec<u8>, utf8_text: bool) -> (r: MediaType)
        ensures
            r@.essence == essence@,
            r@.utf8_text == utf8_text,
    {
        MediaType { essence, utf8_text }
    }

    /// The interned format name, `type/subtype`.
    pub fn essence(&self) -> (r: &Vec<u8>)
        ensures
            r@ == self@.essence,
    {
        &self.essence
    }

    /// Whether the legacy text-format aliases apply to this type.
    pub fn is_utf8_text(&self) -> (r: bool)
        ensures
            r == self@.utf8_text,
    {
        self.utf8_text
    }
}

} // verus!
