use vstd::prelude::*;

verus! {

/// The mathematical value of an entry: its location and its optional
/// last-modification date.
pub type EntryModel = (Seq<char>, Option<Seq<char>>);

/// The view of an optional string.
pub open spec fn opt_view(s: Option<String>) -> Option<Seq<char>> {
    match s {
        Some(t) => Some(t@),
        None => None,
    }
}

/// One record of the site index.
#[derive(Clone, Debug)]
pub struct UrlEntry {
    /// URL of the page.
    pub loc: String,
    /// The date of last modification of the page.
    pub lastmod: Option<String>,
}

impl View for UrlEntry {
    type V = EntryModel;

    open spec fn view(&self) -> EntryModel {
        (self.loc@, opt_view(self.lastmod))
    }
}

/// The element of a site map that the builder is currently positioned in.
#[derive(PartialEq, Eq, Structural, Clone, Copy, Debug)]
pub enum SiteMapElement {
    /// The encapsulating element of one entry.
    Url,
    /// The location of the page.
    Loc,
    /// The last modification date.
    Lastmod,
}

/// Why the builder could not produce an entry.
#[derive(PartialEq, Eq, Structural, Clone, Copy, Debug)]
pub enum UrlEntryBuilderError {
    /// The record never received a location.
    MissingLoc,
    /// The builder was asked to finish while not positioned at the end of a record.
    MissingClosingTag,
}

/// The abstract state of a builder.
pub struct BuilderState {
    pub element: SiteMapElement,
    pub loc: Option<Seq<char>>,
    pub lastmod: Option<Seq<char>>,
}

impl BuilderState {
    /// The state of a fresh builder, and of one that was reset.
    pub open spec fn initial() -> BuilderState {
        BuilderState { element: SiteMapElement::Url, loc: None, lastmod: None }
    }

    pub open spec fn with_element(self, element: SiteMapElement) -> BuilderState {
        BuilderState { element, ..self }
    }

    /// Text is stored in the field of the current element, if it has one.
    pub open spec fn with_text(self, text: Seq<char>) -> BuilderState {
        match self.element {
            SiteMapElement::Loc => BuilderState { loc: Some(text), ..self },
            SiteMapElement::Lastmod => BuilderState { lastmod: Some(text), ..self },
            SiteMapElement::Url => self,
        }
    }

    /// What finishing the record in this state yields.
    pub open spec fn built(self) -> Result<EntryModel, UrlEntryBuilderError> {
        if self.element != SiteMapElement::Url {
            Err(UrlEntryBuilderError::MissingClosingTag)
        } else {
            match self.loc {
                Some(l) => Ok((l, self.lastmod)),
                None => Err(UrlEntryBuilderError::MissingLoc),
            }
        }
    }
}

/// Accumulates one entry from the elements and text of a site map.
pub struct UrlEntryBuilder {
    element: SiteMapElement,
    loc: Option<String>,
    lastmod: Option<String>,
}

impl View for UrlEntryBuilder {
    type V = BuilderState;

    closed spec fn view(&self) -> BuilderState {
        BuilderState { element: self.element, loc: opt_view(self.loc), lastmod: opt_view(self.lastmod) }
    }
}

impl UrlEntryBuilder {
    /// A builder positioned at the start of a record, with no field set.
    pub fn new() -> (r: UrlEntryBuilder)
        ensures
            r@ == BuilderState::initial(),
    {
        UrlEntryBuilder { element: SiteMapElement::Url, loc: None, lastmod: None }
    }

    /// The element the builder is positioned in.
    pub fn element(&self) -> (r: SiteMapElement)
        ensures
            r == self@.element,
    {
        self.element
    }

    pub fn set_element(&mut self, element: SiteMapElement)
        ensures
            final(self)@ == old(self)@.with_element(element),
    {
        self.element = element;
    }

    pub fn set_text(&mut self, text: String)
        ensures
            final(self)@ == old(self)@.with_text(text@),
    {
        match self.element {
            SiteMapElement::Loc => {
                self.loc = Some(text);
            },
            SiteMapElement::Lastmod => {
                self.lastmod = Some(text);
            },
            SiteMapElement::Url => {},
        }
    }

    /// Discards every field and returns to the start of a record.
    pub fn reset(&mut self)
        ensures
            final(self)@ == BuilderState::initial(),
    {
        self.element = SiteMapElement::Url;
        self.loc = None;
        self.lastmod = None;
    }

    pub fn build(&self) -> (r: Result<UrlEntry, UrlEntryBuilderError>)
        ensures
            match r {
                Ok(e) => self@.built() == Ok::<EntryModel, UrlEntryBuilderError>(e@),
                Err(err) => self@.built() == Err::<EntryModel, UrlEntryBuilderError>(err),
            },
    {
        if self.element == SiteMapElement::Url {
            match &self.loc {
                None => Err(UrlEntryBuilderError::MissingLoc),
                Some(l) => Ok(UrlEntry { loc: l.clone(), lastmod: self.lastmod.clone() }),
            }
        } else {
            Err(UrlEntryBuilderError::MissingClosingTag)
        }
    }
}

impl Default for UrlEntryBuilder {
    fn default() -> (r: UrlEntryBuilder)
        ensures
            r@ == BuilderState::initial(),
    {
        UrlEntryBuilder::new()
    }
}

} // verus!
