//! Writing plain markup piece by piece.

use vstd::prelude::*;
use crate::markup::{Attr, Piece};

verus! {

/// Markup that is being written: its text so far, the pieces that it is made of,
/// and the tag that has been begun, if one has, with its attributes so far.
pub struct MarkupWriter {
    text: String,
    pieces: Ghost<Seq<Piece>>,
    tag: Ghost<Option<(Seq<char>, Seq<Attr>)>>,
}

/// What a tag that has been begun stands as.
pub open spec fn begun_tag(tag: Option<(Seq<char>, Seq<Attr>)>) -> Seq<char> {
    match tag {
        None => Seq::empty(),
        Some((name, attributes)) => "<"@ + (name + crate::markup::attributes_text(attributes)),
    }
}

/// What markup that is being written stands for.
pub struct Draft {
    pub pieces: Seq<Piece>,
    pub tag: Option<(Seq<char>, Seq<Attr>)>,
}

impl View for MarkupWriter {
    type V = Draft;

    closed spec fn view(&self) -> Draft {
        Draft { pieces: self.pieces@, tag: self.tag@ }
    }
}

impl MarkupWriter {
    pub closed spec fn wf(self) -> bool {
        self.text@ == crate::markup::written(self.pieces@) + begun_tag(self.tag@)
    }

    /// No markup.
    pub fn new() -> (r: Self)
        ensures
            r.wf(),
            r@ == (Draft { pieces: Seq::empty(), tag: None }),
    {
        let r = MarkupWriter {
            text: String::new(),
            pieces: Ghost(Seq::empty()),
            tag: Ghost(None),
        };
        assert(r.text@ =~= crate::markup::written(r.pieces@) + begun_tag(r.tag@));
        r
    }

    /// Appends a declaration.
    pub fn declare(&mut self, content: &str)
        requires
            old(self).wf(),
            old(self)@.tag is None,
        ensures
            final(self).wf(),
            final(self)@ == (Draft {
                pieces: old(self)@.pieces.push(Piece::Declaration(content@)),
                tag: None,
            }),
    {
        self.text.append("<?");
        self.text.append(content);
        self.text.append("?>");
        proof {
            let piece = Piece::Declaration(content@);
            assert(self.pieces@.push(piece).drop_last() =~= self.pieces@);
            self.pieces@ = self.pieces@.push(piece);
            assert(self.text@ =~= crate::markup::written(self.pieces@) + begun_tag(self.tag@));
        }
    }

    /// Appends text that holds no markup.
    pub fn text(&mut self, text: &str)
        requires
            old(self).wf(),
            old(self)@.tag is None,
        ensures
            final(self).wf(),
            final(self)@ == (Draft {
                pieces: old(self)@.pieces.push(Piece::Text(text@)),
                tag: None,
            }),
    {
        self.text.append(text);
        proof {
            let piece = Piece::Text(text@);
            assert(self.pieces@.push(piece).drop_last() =~= self.pieces@);
            self.pieces@ = self.pieces@.push(piece);
            assert(self.text@ =~= crate::markup::written(self.pieces@) + begun_tag(self.tag@));
        }
    }

    /// Begins a tag.
    pub fn tag(&mut self, name: &str)
        requires
            old(self).wf(),
            old(self)@.tag is None,
        ensures
            final(self).wf(),
            final(self)@ == (Draft { tag: Some((name@, Seq::empty())), ..old(self)@ }),
    {
        self.text.append("<");
        self.text.append(name);
        proof {
            self.tag@ = Some((name@, Seq::empty()));
            assert(self.text@ =~= crate::markup::written(self.pieces@) + begun_tag(self.tag@));
        }
    }

    /// Adds an attribute to the tag that has been begun.
    pub fn attribute(&mut self, key: &str, value: &str)
        requires
            old(self).wf(),
            old(self)@.tag is Some,
        ensures
            final(self).wf(),
            old(self)@.tag matches Some((name, attributes)) && final(self)@ == (Draft {
                tag: Some((name, attributes.push(Attr { key: key@, value: value@ }))),
                ..old(self)@
            }),
    {
        self.text.append(" ");
        self.text.append(key);
        self.text.append("=\"");
        self.text.append(value);
        self.text.append("\"");
        proof {
            let a = Attr { key: key@, value: value@ };
            let (name, attributes) = self.tag@->0;
            assert(attributes.push(a).drop_last() =~= attributes);
            self.tag@ = Some((name, attributes.push(a)));
            assert(self.text@ =~= crate::markup::written(self.pieces@) + begun_tag(self.tag@));
        }
    }

    /// Ends the tag that has been begun as one that opens an element.
    pub fn opens(&mut self)
        requires
            old(self).wf(),
            old(self)@.tag is Some,
        ensures
            final(self).wf(),
            old(self)@.tag matches Some((name, attributes)) && final(self)@ == (Draft {
                pieces: old(self)@.pieces.push(Piece::Open { name, attributes }),
                tag: None,
            }),
    {
        self.text.append(">");
        proof {
            let (name, attributes) = self.tag@->0;
            let piece = Piece::Open { name, attributes };
            assert(self.pieces@.push(piece).drop_last() =~= self.pieces@);
            self.pieces@ = self.pieces@.push(piece);
            self.tag@ = None;
            assert(self.text@ =~= crate::markup::written(self.pieces@) + begun_tag(self.tag@));
        }
    }

    /// Ends the tag that has been begun as an empty one.
    pub fn stays_empty(&mut self)
        requires
            old(self).wf(),
            old(self)@.tag is Some,
        ensures
            final(self).wf(),
            old(self)@.tag matches Some((name, attributes)) && final(self)@ == (Draft {
                pieces: old(self)@.pieces.push(
                    Piece::Empty { name, attributes, spaced: false },
                ),
                tag: None,
            }),
    {
        self.text.append("/>");
        proof {
            let (name, attributes) = self.tag@->0;
            let piece = Piece::Empty { name, attributes, spaced: false };
            assert(self.pieces@.push(piece).drop_last() =~= self.pieces@);
            self.pieces@ = self.pieces@.push(piece);
            self.tag@ = None;
            assert(self.text@ =~= crate::markup::written(self.pieces@) + begun_tag(self.tag@));
        }
    }

    /// Appends a closing tag.
    pub fn close(&mut self, name: &str)
        requires
            old(self).wf(),
            old(self)@.tag is None,
        ensures
            final(self).wf(),
            final(self)@ == (Draft {
                pieces: old(self)@.pieces.push(Piece::Close(name@)),
                tag: None,
            }),
    {
        self.text.append("</");
        self.text.append(name);
        self.text.append(">");
        proof {
            let piece = Piece::Close(name@);
            assert(self.pieces@.push(piece).drop_last() =~= self.pieces@);
            self.pieces@ = self.pieces@.push(piece);
            assert(self.text@ =~= crate::markup::written(self.pieces@) + begun_tag(self.tag@));
        }
    }

    /// The text of the markup.
    pub fn finish(self) -> (text: String)
        requires
            self.wf(),
            self@.tag is None,
        ensures
            text@ == crate::markup::written(self@.pieces),
    {
        assert(self.text@ =~= crate::markup::written(self.pieces@));
        self.text
    }
}

} // verus!
