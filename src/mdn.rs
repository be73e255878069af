use vstd::prelude::*;
use crate::ignore::{prefix_matches, str_equal, IgnoreFilter};
use crate::ingest::{events_view, ingest, ingest_spec, trim_of, trim_text, EventModel, Ingested, SiteMapEvent};
use crate::snapshot::entries_view;
use crate::url_entry::UrlEntry;

verus! {

/// Every page of the documentation starts with this location.
pub const BASE_URL: &'static str = "https://developer.mozilla.org/en-US/";

/// Where the compressed site map is published.
pub const MDN_SITE_MAP_URL: &'static str = "https://developer.mozilla.org/sitemaps/en-us/sitemap.xml.gz";

/// The bytes that a gzip stream decompresses to, or `None` where it is not
/// a valid gzip stream.
pub uninterp spec fn gunzip_of(data: Seq<u8>) -> Option<Seq<u8>>;

/// Relies on flate2::read::GzDecoder: reading it to the end decompresses the
/// gzip stream `data`, and fails where `data` is not one.
#[verifier::external_body]
fn gunzip(data: &[u8]) -> (r: Option<Vec<u8>>)
    ensures
        match r {
            Some(v) => gunzip_of(data@) == Some(v@),
            None => gunzip_of(data@) is None,
        },
{
    let mut out = Vec::new();
    match std::io::Read::read_to_end(&mut flate2::read::GzDecoder::new(data), &mut out) {
        Ok(_) => Some(out),
        Err(_) => None,
    }
}

/// The events of an XML document, in document order.
pub uninterp spec fn xml_events_of(doc: Seq<u8>) -> Seq<EventModel>;

/// Relies on xml::EventReader: the events that it reads from the document,
/// each start, end and text event with its name or text, and one event for
/// each error.
#[verifier::external_body]
fn xml_events(doc: &[u8]) -> (r: Vec<SiteMapEvent>)
    ensures
        events_view(r@) == xml_events_of(doc@),
{
    xml::EventReader::new(doc).into_iter().map(|e| match e {
        Ok(xml::reader::XmlEvent::StartElement { name, .. }) => SiteMapEvent::Start(name.local_name),
        Ok(xml::reader::XmlEvent::EndElement { name }) => SiteMapEvent::End(name.local_name),
        Ok(xml::reader::XmlEvent::Characters(text)) => SiteMapEvent::Text(text),
        Ok(_) => SiteMapEvent::Other,
        Err(_) => SiteMapEvent::Malformed,
    }).collect()
}

/// Why a site map could not be read.
#[derive(PartialEq, Eq, Structural, Clone, Copy, Debug)]
pub enum SiteMapError {
    /// The bytes are not a gzip stream.
    Decompress,
}

/// Reads the entries of an uncompressed site map document.
pub fn site_map_from_xml(doc: &[u8], filter: &IgnoreFilter) -> (r: Ingested)
    ensures
        entries_view(r.entries@) == ingest_spec(xml_events_of(doc@), filter.spec_rules()).entries,
        r.dropped == ingest_spec(xml_events_of(doc@), filter.spec_rules()).dropped,
        r.malformed == ingest_spec(xml_events_of(doc@), filter.spec_rules()).malformed,
{
    let events = xml_events(doc);
    ingest(&events, filter)
}

/// Reads the entries of a gzip-compressed site map. Only a stream that does
/// not decompress fails; undecodable events are counted and skipped.
pub fn site_map_from_gzip(data: &[u8], filter: &IgnoreFilter) -> (r: Result<Ingested, SiteMapError>)
    ensures
        gunzip_of(data@) is None <==> r is Err,
        r matches Ok(x) ==> entries_view(x.entries@) == ingest_spec(
            xml_events_of(gunzip_of(data@).unwrap()),
            filter.spec_rules(),
        ).entries,
{
    match gunzip(data) {
        Some(doc) => Ok(site_map_from_xml(doc.as_slice(), filter)),
        None => Err(SiteMapError::Decompress),
    }
}

/// The text with every occurrence of `from` replaced by `to`.
pub uninterp spec fn replace_of(s: Seq<char>, from: Seq<char>, to: Seq<char>) -> Seq<char>;

/// Relies on str::replace: every occurrence of `from` replaced by `to`.
#[verifier::external_body]
fn replace_text(s: &str, from: &str, to: &str) -> (r: String)
    ensures
        r@ == replace_of(s@, from@, to@),
{
    s.replace(from, to)
}

/// The locations of `entries`, in order, with the common base removed: the
/// items offered for selection.
pub fn selection_items(entries: &Vec<UrlEntry>) -> (r: Vec<String>)
    ensures
        r@.len() == entries@.len(),
        forall|i: int| 0 <= i < r@.len() ==> (#[trigger] r@[i])@ == replace_of(entries@[i].loc@, BASE_URL@, ""@),
{
    let mut out: Vec<String> = Vec::new();
    let mut i: usize = 0;
    while i < entries.len()
        invariant
            i <= entries@.len(),
            out@.len() == i,
            forall|j: int| 0 <= j < i ==> (#[trigger] out@[j])@ == replace_of(entries@[j].loc@, BASE_URL@, ""@),
        decreases entries@.len() - i,
    {
        out.push(replace_text(entries[i].loc.as_str(), BASE_URL, ""));
        i = i + 1;
    }
    out
}

/// The absolute location of a page named by `item`: `item` itself when it
/// already starts with the base, else the base followed by `item`.
pub fn page_url(item: &str) -> (r: String)
    ensures
        r@ == if BASE_URL@.len() <= item@.len() && item@.subrange(0, BASE_URL@.len() as int) == BASE_URL@ {
            item@
        } else {
            BASE_URL@ + item@
        },
{
    let bl = BASE_URL.unicode_len();
    let starts = prefix_matches(item, item.unicode_len(), BASE_URL, bl);
    assert(BASE_URL@.subrange(0, bl as int) =~= BASE_URL@);
    if starts {
        item.to_owned()
    } else {
        BASE_URL.to_owned().concat(item)
    }
}

/// A heading of a page.
pub struct Header {
    /// 1, 2 or 3 for the headings h1, h2, h3.
    pub level: u8,
    pub value: String,
}

/// The summary of a documentation page.
pub struct PageContent {
    pub title: String,
    pub description: String,
    pub headers: Vec<Header>,
}

/// The models of a sequence of headings.
pub open spec fn headers_view(hs: Seq<Header>) -> Seq<(u8, Seq<char>)> {
    hs.map_values(|h: Header| (h.level, h.value@))
}

/// One line of the outline: the heading indented by five spaces per level.
pub open spec fn header_line(level: u8, value: Seq<char>) -> Seq<char> {
    Seq::new((5 * level) as nat, |i: int| ' ') + "|-- "@ + value + "\n"@
}

/// The outline lines of `hs`, in order.
pub open spec fn headers_text(hs: Seq<(u8, Seq<char>)>) -> Seq<char>
    decreases hs.len(),
{
    if hs.len() == 0 {
        Seq::empty()
    } else {
        headers_text(hs.drop_last()) + header_line(hs.last().0, hs.last().1)
    }
}

/// The text of a page summary.
pub open spec fn render_spec(title: Seq<char>, description: Seq<char>, hs: Seq<(u8, Seq<char>)>) -> Seq<char> {
    "Title: "@ + title + "\n"@ + "Description: "@ + description + "\n\n\n"@ + "Headers:\n"@ + headers_text(hs)
}

/// The level of a heading element of this name.
pub open spec fn level_of(name: Seq<char>) -> u8 {
    if name == "h1"@ {
        1
    } else if name == "h2"@ {
        2
    } else if name == "h3"@ {
        3
    } else {
        0
    }
}

/// The level of a heading element of this name: 1 to 3 for h1 to h3, else 0.
pub fn header_level(name: &str) -> (r: u8)
    ensures
        r == level_of(name@),
{
    if str_equal(name, "h1") {
        1
    } else if str_equal(name, "h2") {
        2
    } else if str_equal(name, "h3") {
        3
    } else {
        0
    }
}

/// The last of `texts`, trimmed, or the empty text when there is none.
pub open spec fn last_trimmed(texts: Seq<String>) -> Seq<char> {
    if texts.len() == 0 {
        Seq::empty()
    } else {
        trim_of(texts.last()@)
    }
}

fn pick_last_trimmed(texts: &Vec<String>) -> (r: String)
    ensures
        r@ == last_trimmed(texts@),
{
    if texts.len() == 0 {
        String::new()
    } else {
        trim_text(texts[texts.len() - 1].as_str())
    }
}

impl PageContent {
    /// The summary of a page whose head holds the title texts `titles` and the
    /// description attributes `descriptions`, and whose main content holds the
    /// headings `headings` (element name and text), all in document order.
    /// The last title and the last description count.
    pub fn from_parts(titles: &Vec<String>, descriptions: &Vec<String>, headings: &Vec<(String, String)>) -> (r: PageContent)
        ensures
            r.title@ == last_trimmed(titles@),
            r.description@ == last_trimmed(descriptions@),
            r.headers@.len() == headings@.len(),
            forall|i: int| 0 <= i < headings@.len() ==> (#[trigger] r.headers@[i]).level == level_of(headings@[i].0@)
                && r.headers@[i].value@ == trim_of(headings@[i].1@),
    {
        let mut headers: Vec<Header> = Vec::new();
        let mut i: usize = 0;
        while i < headings.len()
            invariant
                i <= headings@.len(),
                headers@.len() == i,
                forall|j: int| 0 <= j < i ==> (#[trigger] headers@[j]).level == level_of(headings@[j].0@)
                    && headers@[j].value@ == trim_of(headings@[j].1@),
            decreases headings@.len() - i,
        {
            let (name, text) = &headings[i];
            headers.push(Header { level: header_level(name.as_str()), value: trim_text(text.as_str()) });
            i = i + 1;
        }
        PageContent { title: pick_last_trimmed(titles), description: pick_last_trimmed(descriptions), headers }
    }

    /// The text of the summary: title, description and the outline of headings.
    pub fn render(&self) -> (r: String)
        ensures
            r@ == render_spec(self.title@, self.description@, headers_view(self.headers@)),
    {
        let mut s = String::new();
        s.append("Title: ");
        s.append(self.title.as_str());
        s.append("\n");
        s.append("Description: ");
        s.append(self.description.as_str());
        s.append("\n\n\n");
        s.append("Headers:\n");
        let ghost head = s@;
        let mut i: usize = 0;
        while i < self.headers.len()
            invariant
                i <= self.headers@.len(),
                s@ == head + headers_text(headers_view(self.headers@).take(i as int)),
            decreases self.headers@.len() - i,
        {
            let h = &self.headers[i];
            let ghost before = s@;
            let n: usize = 5 * (h.level as usize);
            let mut k: usize = 0;
            while k < n
                invariant
                    k <= n,
                    n == 5 * h.level,
                    s@ == before + Seq::new(k as nat, |j: int| ' '),
                decreases n - k,
            {
                s.append(" ");
                proof {
                    reveal_strlit(" ");
                }
                assert(s@ =~= before + Seq::new((k + 1) as nat, |j: int| ' '));
                k = k + 1;
            }
            s.append("|-- ");
            s.append(h.value.as_str());
            s.append("\n");
            proof {
                let hv = headers_view(self.headers@);
                assert(hv.take(i + 1).drop_last() =~= hv.take(i as int));
                assert(hv.take(i + 1).last() == (h.level, h.value@));
                assert(s@ =~= head + headers_text(hv.take(i + 1)));
            }
            i = i + 1;
        }
        assert(headers_view(self.headers@).take(self.headers@.len() as int) =~= headers_view(self.headers@));
        s
    }
}

} // verus!
