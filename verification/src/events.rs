//! Lexical events of an XML document and the pull cursor over them.

use vstd::prelude::*;

verus! {

/// One lexical event of an XML document, as a tokenizer hands them out.
///
/// `<person age="7">` becomes `Start("person")`, `Attr("age", "7")`, `Open`;
/// `<nick/>` becomes `Start("nick")`, `Empty`; `</person>` becomes
/// `Close("person")`; a text run between tags becomes `Text(..)`.
#[derive(Debug, PartialEq)]
pub enum Event {
    /// `<tag` — the start of an element's opening tag.
    Start(String),
    /// `key="value"` — one attribute inside an opening tag.
    Attr(String, String),
    /// `>` — the opening tag ends; the element has content.
    Open,
    /// `/>` — the opening tag ends; the element is self-closing.
    Empty,
    /// `</tag>` — the closing tag of an element.
    Close(String),
    /// A run of character data between tags.
    Text(String),
}

/// An exclusive pull cursor over one stream of lexical events.
pub struct TokenSource {
    events: Vec<Event>,
    pos: usize,
}

impl TokenSource {
    /// The whole event stream the cursor walks.
    pub closed spec fn evs(&self) -> Seq<Event> {
        self.events@
    }

    /// The cursor position: events before it have been consumed.
    pub closed spec fn at(&self) -> int {
        self.pos as int
    }

    /// The cursor never points past the end of the stream, and the stream
    /// fits in memory.
    pub open spec fn wf(&self) -> bool {
        0 <= self.at() <= self.evs().len() <= usize::MAX
    }

    /// A fresh cursor standing before the first event.
    pub fn new(events: Vec<Event>) -> (s: Self)
        ensures
            s.wf(),
            s.evs() == events@,
            s.at() == 0,
    {
        proof {
            assert(events.len() == events@.len());
        }
        TokenSource { events, pos: 0 }
    }

    /// Whether every event has been consumed.
    pub fn done(&self) -> (r: bool)
        requires
            self.wf(),
        ensures
            r == (self.at() == self.evs().len()),
    {
        self.pos == self.events.len()
    }

    /// The event under the cursor.
    pub fn cur(&self) -> (e: &Event)
        requires
            self.wf(),
            self.at() < self.evs().len(),
        ensures
            *e == self.evs()[self.at()],
    {
        &self.events[self.pos]
    }

    /// Consume the event under the cursor.
    pub fn bump(&mut self)
        requires
            old(self).wf(),
            old(self).at() < old(self).evs().len(),
        ensures
            final(self).wf(),
            final(self).evs() == old(self).evs(),
            final(self).at() == old(self).at() + 1,
    {
        proof {
            assert(self.pos < self.events.len());
        }
        self.pos = self.pos + 1;
    }
}

} // verus!
