use vstd::prelude::*;

pub mod autolink;
pub mod codec;
pub mod markup;
pub mod serialize;
pub mod state;
pub mod web;
pub mod webhook;

pub use crate::autolink::{Autolinker, LinkKind, LinkPiece};
pub use crate::codec::Text;
pub use crate::markup::{CommonTag, TagFormat};
pub use crate::state::{IsMaintenance, State};
pub use crate::web::{AdminGuardMiddleware, AdminGuardMiddlewareImpl, Device, Identity, OptionalIdentity, Validation};
pub use crate::webhook::Webhook;

verus! {

/// Encoding of text for display.
pub trait HTMLEncode {
    /// The characters of the text.
    spec fn text(&self) -> Seq<char>;

    fn br(&self) -> (r: String)
        ensures
            r@ == codec::line_breaks(self.text()),
    ;

    fn escape(&self, quot: bool) -> (r: Text<'_>)
        ensures
            r.view() == codec::encode(self.text(), quot),
            r.is_borrowed() <==> !codec::has_special(self.text(), quot),
    ;

    fn escape_and_link(&self) -> (r: String)
        ensures
            r@ == autolink::linked(
                autolink::classified(autolink::link_scan(self.text())),
                autolink::rest_after(self.text(), autolink::link_scan(self.text())),
            ),
            autolink::link_scan(self.text()).len() == 0 ==> r@ == codec::encode(self.text(), false),
            self.text().len() == 0 ==> r@.len() == 0,
    ;

    fn tag<T: TagFormat>(&self, format: T) -> (r: String)
        ensures
            r@ == format.rendered(self.text()),
    ;
}

impl HTMLEncode for str {
    open spec fn text(&self) -> Seq<char> {
        self@
    }

    fn br(&self) -> (r: String) {
        codec::br(self)
    }

    fn escape(&self, quot: bool) -> (r: Text<'_>) {
        codec::escape(self, quot)
    }

    fn escape_and_link(&self) -> (r: String) {
        let linker = Autolinker::new();
        match linker {
            Some(linker) => linker.escape_and_link(self),
            None => codec::escape(self, false).into_string(),
        }
    }

    fn tag<T: TagFormat>(&self, format: T) -> (r: String) {
        format.parse(self)
    }
}

/// Decoding of displayed text back to its stored form.
pub trait HTMLDecode {
    /// The characters of the text.
    spec fn text(&self) -> Seq<char>;

    fn unescape(&self) -> (r: Text<'_>)
        ensures
            r.view() == codec::decode(self.text()),
            (forall|i: int| 0 <= i < self.text().len() ==> #[trigger] self.text()[i] != '&') ==> r.is_borrowed(),
    ;

    fn rm_br(&self) -> (r: String)
        ensures
            r@ == codec::strip_breaks(self.text()),
    ;
}

impl HTMLDecode for str {
    open spec fn text(&self) -> Seq<char> {
        self@
    }

    fn unescape(&self) -> (r: Text<'_>) {
        codec::unescape(self)
    }

    fn rm_br(&self) -> (r: String) {
        codec::rm_br(self)
    }
}

} // verus!
