use vstd::prelude::*;
use crate::ignore::{any_rule_matches, str_equal, IgnoreFilter};
use crate::snapshot::entries_view;
use crate::url_entry::{BuilderState, EntryModel, SiteMapElement, UrlEntry, UrlEntryBuilder};

verus! {

/// One event of a parsed site map, in document order.
pub enum SiteMapEvent {
    /// The start of the element of this local name.
    Start(String),
    /// The end of the element of this local name.
    End(String),
    /// Character data.
    Text(String),
    /// Any other event of the document (a declaration, a comment, ...).
    Other,
    /// An event that the parser could not decode.
    Malformed,
}

/// The mathematical value of an event.
pub enum EventModel {
    Start(Seq<char>),
    End(Seq<char>),
    Text(Seq<char>),
    Other,
    Malformed,
}

impl View for SiteMapEvent {
    type V = EventModel;

    open spec fn view(&self) -> EventModel {
        match self {
            SiteMapEvent::Start(n) => EventModel::Start(n@),
            SiteMapEvent::End(n) => EventModel::End(n@),
            SiteMapEvent::Text(t) => EventModel::Text(t@),
            SiteMapEvent::Other => EventModel::Other,
            SiteMapEvent::Malformed => EventModel::Malformed,
        }
    }
}

/// The text with leading and trailing white space removed.
pub uninterp spec fn trim_of(s: Seq<char>) -> Seq<char>;

/// Relies on str::trim: the text less its leading and trailing white space,
/// which depends on the characters alone.
#[verifier::external_body]
pub(crate) fn trim_text(s: &str) -> (r: String)
    ensures
        r@ == trim_of(s@),
{
    s.trim().to_owned()
}

/// The state of an ingestion after some events.
pub struct IngestState {
    pub builder: BuilderState,
    pub entries: Seq<EntryModel>,
    pub dropped: nat,
    pub malformed: nat,
}

pub open spec fn initial_ingest() -> IngestState {
    IngestState { builder: BuilderState::initial(), entries: Seq::empty(), dropped: 0, malformed: 0 }
}

/// The effect of one event. The start of a `url` element begins a fresh record;
/// its end finishes the record, which is kept when it has a location and
/// dropped otherwise. A location caught by `rules` discards the record at once.
pub open spec fn ingest_step(st: IngestState, ev: EventModel, rules: Seq<Seq<char>>) -> IngestState {
    match ev {
        EventModel::Start(n) => if n == "url"@ {
            IngestState { builder: BuilderState::initial(), ..st }
        } else if n == "loc"@ {
            IngestState { builder: st.builder.with_element(SiteMapElement::Loc), ..st }
        } else if n == "lastmod"@ {
            IngestState { builder: st.builder.with_element(SiteMapElement::Lastmod), ..st }
        } else {
            st
        },
        EventModel::End(n) => if n == "url"@ {
            match st.builder.with_element(SiteMapElement::Url).built() {
                Ok(e) => IngestState { builder: BuilderState::initial(), entries: st.entries.push(e), ..st },
                Err(_) => IngestState { builder: BuilderState::initial(), dropped: st.dropped + 1, ..st },
            }
        } else {
            st
        },
        EventModel::Text(t) => {
            let tt = trim_of(t);
            if tt.len() == 0 {
                st
            } else if st.builder.element == SiteMapElement::Loc && any_rule_matches(rules, tt) {
                IngestState { builder: BuilderState::initial(), ..st }
            } else {
                IngestState { builder: st.builder.with_text(tt), ..st }
            }
        },
        EventModel::Other => st,
        EventModel::Malformed => IngestState { malformed: st.malformed + 1, ..st },
    }
}

/// The state after all of `events`, in order.
pub open spec fn ingest_spec(events: Seq<EventModel>, rules: Seq<Seq<char>>) -> IngestState
    decreases events.len(),
{
    if events.len() == 0 {
        initial_ingest()
    } else {
        ingest_step(ingest_spec(events.drop_last(), rules), events.last(), rules)
    }
}

/// No location held or emitted so far is caught by `rules`.
pub open spec fn nothing_ignored_kept(st: IngestState, rules: Seq<Seq<char>>) -> bool {
    &&& (st.builder.loc matches Some(l) ==> !any_rule_matches(rules, l))
    &&& forall|k: int| 0 <= k < st.entries.len() ==> !any_rule_matches(rules, (#[trigger] st.entries[k]).0)
}

proof fn lemma_nothing_ignored_kept(events: Seq<EventModel>, rules: Seq<Seq<char>>)
    ensures
        nothing_ignored_kept(ingest_spec(events, rules), rules),
    decreases events.len(),
{
    if events.len() > 0 {
        lemma_nothing_ignored_kept(events.drop_last(), rules);
        let st = ingest_spec(events.drop_last(), rules);
        let next = ingest_step(st, events.last(), rules);
        assert(next == ingest_spec(events, rules));
        assert forall|k: int| 0 <= k < next.entries.len() implies !any_rule_matches(
            rules,
            (#[trigger] next.entries[k]).0,
        ) by {
            if k < st.entries.len() {
                assert(next.entries[k] == st.entries[k]);
            }
        }
    }
}

/// A location that the filter catches never stands in the output of an
/// ingestion, whatever events follow it (a date for the same record included).
pub proof fn lemma_ignored_never_emitted(events: Seq<EventModel>, rules: Seq<Seq<char>>, k: int)
    requires
        0 <= k < ingest_spec(events, rules).entries.len(),
    ensures
        !any_rule_matches(rules, ingest_spec(events, rules).entries[k].0),
{
    lemma_nothing_ignored_kept(events, rules);
}

/// The models of a sequence of events.
pub open spec fn events_view(v: Seq<SiteMapEvent>) -> Seq<EventModel> {
    v.map_values(|e: SiteMapEvent| e@)
}

/// What an ingestion produced.
pub struct Ingested {
    /// The complete records, in document order.
    pub entries: Vec<UrlEntry>,
    /// How many records were dropped for want of a location.
    pub dropped: usize,
    /// How many events could not be decoded.
    pub malformed: usize,
}

/// Builds the entries of a site map from its events, leaving out each record
/// whose location `filter` catches.
pub fn ingest(events: &Vec<SiteMapEvent>, filter: &IgnoreFilter) -> (r: Ingested)
    ensures
        entries_view(r.entries@) == ingest_spec(events_view(events@), filter.spec_rules()).entries,
        r.dropped == ingest_spec(events_view(events@), filter.spec_rules()).dropped,
        r.malformed == ingest_spec(events_view(events@), filter.spec_rules()).malformed,
{
    let ghost rules = filter.spec_rules();
    let mut builder = UrlEntryBuilder::new();
    let mut entries: Vec<UrlEntry> = Vec::new();
    let mut dropped: usize = 0;
    let mut malformed: usize = 0;
    let mut i: usize = 0;
    while i < events.len()
        invariant
            i <= events@.len(),
            dropped + malformed <= i,
            rules == filter.spec_rules(),
            ({
                let st = ingest_spec(events_view(events@).take(i as int), rules);
                &&& builder@ == st.builder
                &&& entries_view(entries@) == st.entries
                &&& dropped == st.dropped
                &&& malformed == st.malformed
            }),
        decreases events@.len() - i,
    {
        let ghost evs = events_view(events@);
        assert(evs.take(i + 1).drop_last() =~= evs.take(i as int));
        let ghost old_entries = entries@;
        match &events[i] {
            SiteMapEvent::Start(n) => {
                if str_equal(n.as_str(), "url") {
                    builder.reset();
                } else if str_equal(n.as_str(), "loc") {
                    builder.set_element(SiteMapElement::Loc);
                } else if str_equal(n.as_str(), "lastmod") {
                    builder.set_element(SiteMapElement::Lastmod);
                }
            },
            SiteMapEvent::End(n) => {
                if str_equal(n.as_str(), "url") {
                    builder.set_element(SiteMapElement::Url);
                    match builder.build() {
                        Ok(e) => {
                            entries.push(e);
                            assert(entries_view(entries@) =~= entries_view(old_entries).push(e@));
                        },
                        Err(_) => {
                            dropped = dropped + 1;
                        },
                    }
                    builder.reset();
                }
            },
            SiteMapEvent::Text(t) => {
                let tt = trim_text(t.as_str());
                if tt.unicode_len() > 0 {
                    if builder.element() == SiteMapElement::Loc && filter.matches(tt.as_str()) {
                        builder.reset();
                    } else {
                        builder.set_text(tt);
                    }
                }
            },
            SiteMapEvent::Other => {},
            SiteMapEvent::Malformed => {
                malformed = malformed + 1;
            },
        }
        i = i + 1;
    }
    assert(events_view(events@).take(events@.len() as int) =~= events_view(events@));
    Ingested { entries, dropped, malformed }
}

} // verus!
