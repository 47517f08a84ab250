//! Text runs of Office Open XML parts: a single pass over the XML events
//! collects the text inside elements with a given local name (`w:t`, `a:t`
//! and a bare `t` all match `t`, whatever the namespace prefix), and ends a
//! line wherever a paragraph element closes. No tree is built. A malformed
//! document ends the pass; the text found up to there is kept.

use vstd::prelude::*;
use quick_xml::events::Event;
use crate::text::{chars_of, str_eq, string_from_chars};

verus! {

#[verifier::external_type_specification]
#[verifier::external_body]
#[verifier::reject_recursive_types(R)]
pub struct ExXmlReader<R>(quick_xml::Reader<R>);

/// One event of an XML document, reduced to what the text pass reads.
#[derive(Debug, PartialEq, Eq)]
pub enum XmlEvent {
    /// An opening tag, by its local name.
    Start(String),
    /// A closing tag, by its local name.
    End(String),
    /// A self-closing tag, by its local name.
    Empty(String),
    /// Character data as it stands between tags (references come apart).
    Text(String),
    /// A reference `&name;`, by the name between `&` and `;`.
    Ref(String),
    /// Anything else (declarations, comments, CDATA, ...).
    Other,
    /// The end of the document.
    Eof,
    /// The document is malformed here.
    Error,
}

/// The mathematical content of an [`XmlEvent`].
pub enum XmlEventView {
    Start(Seq<char>),
    End(Seq<char>),
    Empty(Seq<char>),
    Text(Seq<char>),
    Ref(Seq<char>),
    Other,
    Eof,
    Error,
}

impl View for XmlEvent {
    type V = XmlEventView;

    open spec fn view(&self) -> XmlEventView {
        match self {
            XmlEvent::Start(n) => XmlEventView::Start(n@),
            XmlEvent::End(n) => XmlEventView::End(n@),
            XmlEvent::Empty(n) => XmlEventView::Empty(n@),
            XmlEvent::Text(t) => XmlEventView::Text(t@),
            XmlEvent::Ref(r) => XmlEventView::Ref(r@),
            XmlEvent::Other => XmlEventView::Other,
            XmlEvent::Eof => XmlEventView::Eof,
            XmlEvent::Error => XmlEventView::Error,
        }
    }
}

pub open spec fn events_view(v: Seq<XmlEvent>) -> Seq<XmlEventView> {
    v.map_values(|e: XmlEvent| e@)
}

/// The `k`-th event (from 0) that quick-xml's reader gives for the document
/// `xml`, in its default configuration, reduced as [`XmlEvent`] says.
pub uninterp spec fn xml_event_at(xml: Seq<u8>, k: nat) -> XmlEventView;

/// A reader over a document, with the document and the number of events
/// read so far.
pub struct XmlCursor<'a> {
    reader: quick_xml::Reader<&'a [u8]>,
    xml: Ghost<Seq<u8>>,
    read: Ghost<nat>,
}

impl<'a> View for XmlCursor<'a> {
    type V = (Seq<u8>, nat);

    closed spec fn view(&self) -> (Seq<u8>, nat) {
        (self.xml@, self.read@)
    }
}

/// `quick_xml::Reader::from_reader` over the bytes, in the default
/// configuration (text kept as it stands, end names checked, self-closing
/// tags not expanded). Nothing is stated of the reader; the cursor built
/// around it by [`XmlCursor::new`] records the document.
#[verifier::external_body]
fn xml_reader<'a>(xml: &'a [u8]) -> quick_xml::Reader<&'a [u8]> {
    quick_xml::Reader::from_reader(xml)
}

impl<'a> XmlCursor<'a> {
    pub fn new(xml: &'a [u8]) -> (c: XmlCursor<'a>)
        ensures
            c@ == (xml@, 0nat),
    {
        XmlCursor { reader: xml_reader(xml), xml: Ghost(xml@), read: Ghost(0) }
    }

    /// `quick_xml::Reader::read_event`: the next event, reduced to an
    /// [`XmlEvent`] (local names of tags, the text of text and reference
    /// events). The contract names the event by the document and the number
    /// of events read before it.
    #[verifier::external_body]
    pub fn next_event(&mut self) -> (ev: XmlEvent)
        ensures
            final(self)@ == (old(self)@.0, old(self)@.1 + 1),
            ev@ == xml_event_at(old(self)@.0, old(self)@.1),
    {
        match self.reader.read_event() {
            Ok(Event::Start(e)) => XmlEvent::Start(e.local_name().as_ref().to_string()),
            Ok(Event::End(e)) => XmlEvent::End(e.local_name().as_ref().to_string()),
            Ok(Event::Empty(e)) => XmlEvent::Empty(e.local_name().as_ref().to_string()),
            Ok(Event::Text(t)) => XmlEvent::Text(t.into_inner().into_owned()),
            Ok(Event::GeneralRef(r)) => XmlEvent::Ref(r.into_inner().into_owned()),
            Ok(Event::Eof) => XmlEvent::Eof,
            Ok(_) => XmlEvent::Other,
            Err(_) => XmlEvent::Error,
        }
    }
}

// ---------------------------------------------------------------------------
// References
// ---------------------------------------------------------------------------

/// The five entities that XML predefines, and their text.
pub open spec fn predefined_entity_text(name: Seq<char>) -> Option<Seq<char>> {
    if name == "lt"@ {
        Some("<"@)
    } else if name == "gt"@ {
        Some(">"@)
    } else if name == "amp"@ {
        Some("&"@)
    } else if name == "apos"@ {
        Some("'"@)
    } else if name == "quot"@ {
        Some("\""@)
    } else {
        None
    }
}

/// The text of one of the five predefined entities, nothing for any other
/// name (what `quick_xml::escape::resolve_predefined_entity` gives when the
/// crate is built without its `escape-html` feature).
fn predefined_entity(name: &str) -> (r: Option<&'static str>)
    ensures
        match r {
            Some(t) => predefined_entity_text(name@) == Some(t@),
            None => predefined_entity_text(name@) is None,
        },
{
    proof {
        reveal_strlit("lt");
        reveal_strlit("gt");
        reveal_strlit("amp");
        reveal_strlit("apos");
        reveal_strlit("quot");
        reveal_strlit("<");
        reveal_strlit(">");
        reveal_strlit("&");
        reveal_strlit("'");
        reveal_strlit("\"");
    }
    if str_eq(name, "lt") {
        Some("<")
    } else if str_eq(name, "gt") {
        Some(">")
    } else if str_eq(name, "amp") {
        Some("&")
    } else if str_eq(name, "apos") {
        Some("'")
    } else if str_eq(name, "quot") {
        Some("\"")
    } else {
        None
    }
}

/// The character that quick-xml's `BytesRef::resolve_char_ref` gives for a
/// reference named `name` (`#` and a decimal number, or `#x` and a
/// hexadecimal one); nothing when it reports an error or no character.
pub uninterp spec fn xml_char_ref(name: Seq<char>) -> Option<char>;

/// `quick_xml::events::BytesRef::resolve_char_ref` on a reference named
/// `name`; an error (a malformed number, NUL, or no character) gives
/// nothing. The contract names the result.
#[verifier::external_body]
fn char_ref(name: &str) -> (r: Option<char>)
    ensures
        r == xml_char_ref(name@),
{
    match quick_xml::events::BytesRef::new(name).resolve_char_ref() {
        Ok(c) => c,
        Err(_) => None,
    }
}

/// The text a reference stands for: a character reference its character,
/// a predefined entity its text; nothing for an unknown entity.
pub open spec fn ref_text(name: Seq<char>) -> Option<Seq<char>> {
    if name.len() > 0 && name[0] == '#' {
        match xml_char_ref(name) {
            Some(c) => Some(seq![c]),
            None => None,
        }
    } else {
        predefined_entity_text(name)
    }
}

/// The text of a reference (see [`ref_text`]).
pub fn ref_value(name: &str) -> (r: Option<String>)
    ensures
        match r {
            Some(t) => ref_text(name@) == Some(t@),
            None => ref_text(name@) is None,
        },
{
    let cs = chars_of(name);
    if cs.len() > 0 && cs[0] == '#' {
        match char_ref(name) {
            Some(c) => {
                let v = vec![c];
                assert(v@ =~= seq![c]);
                Some(string_from_chars(&v))
            },
            None => None,
        }
    } else {
        match predefined_entity(name) {
            Some(t) => Some(String::from_str(t)),
            None => None,
        }
    }
}

// ---------------------------------------------------------------------------
// The pass
// ---------------------------------------------------------------------------

pub open spec fn opt_view(o: Option<&str>) -> Option<Seq<char>> {
    match o {
        Some(s) => Some(s@),
        None => None,
    }
}

/// One event of the pass, from whether it is inside a text element: whether
/// the pass goes on, whether it is inside a text element afterwards, and the
/// text it adds. The end of the document or an error stops it; an opening
/// text element starts collecting and its closing tag stops; text and
/// references are collected inside; a closing or self-closing paragraph
/// element adds a line break.
pub open spec fn pass_step(ev: XmlEventView, in_text: bool, text_tag: Seq<char>, para_tag: Option<Seq<char>>) -> (bool, bool, Seq<char>) {
    match ev {
        XmlEventView::Eof => (false, in_text, Seq::empty()),
        XmlEventView::Error => (false, in_text, Seq::empty()),
        XmlEventView::Start(n) => (true, in_text || n == text_tag, Seq::empty()),
        XmlEventView::Text(t) => (true, in_text, if in_text {
            t
        } else {
            Seq::empty()
        }),
        XmlEventView::Ref(r) => (true, in_text, if in_text {
            match ref_text(r) {
                Some(t) => t,
                None => Seq::empty(),
            }
        } else {
            Seq::empty()
        }),
        XmlEventView::End(n) => if n == text_tag {
            (true, false, Seq::empty())
        } else if para_tag == Some(n) {
            (true, in_text, seq!['\n'])
        } else {
            (true, in_text, Seq::empty())
        },
        XmlEventView::Empty(n) => (true, in_text, if para_tag == Some(n) {
            seq!['\n']
        } else {
            Seq::empty()
        }),
        XmlEventView::Other => (true, in_text, Seq::empty()),
    }
}

/// The text the pass collects from event `i` on.
pub open spec fn text_from(evs: Seq<XmlEventView>, i: int, in_text: bool, text_tag: Seq<char>, para_tag: Option<Seq<char>>) -> Seq<char>
    decreases evs.len() - i,
{
    if i < 0 || i >= evs.len() {
        Seq::empty()
    } else {
        let st = pass_step(evs[i], in_text, text_tag, para_tag);
        if st.0 {
            st.2 + text_from(evs, i + 1, st.1, text_tag, para_tag)
        } else {
            Seq::empty()
        }
    }
}

/// The text of a whole event sequence.
pub open spec fn tagged_text(evs: Seq<XmlEventView>, text_tag: Seq<char>, para_tag: Option<Seq<char>>) -> Seq<char> {
    text_from(evs, 0, false, text_tag, para_tag)
}

fn pass_event(out: &mut Vec<char>, in_text: bool, ev: &XmlEvent, text_tag: &str, para_tag: Option<&str>) -> (r: (bool, bool))
    ensures
        r.0 == pass_step(ev@, in_text, text_tag@, opt_view(para_tag)).0,
        r.1 == pass_step(ev@, in_text, text_tag@, opt_view(para_tag)).1,
        final(out)@ == old(out)@ + pass_step(ev@, in_text, text_tag@, opt_view(para_tag)).2,
{
    match ev {
        XmlEvent::Eof => {
            assert(out@ =~= old(out)@ + Seq::<char>::empty());
            (false, in_text)
        },
        XmlEvent::Error => {
            assert(out@ =~= old(out)@ + Seq::<char>::empty());
            (false, in_text)
        },
        XmlEvent::Start(n) => {
            assert(out@ =~= old(out)@ + Seq::<char>::empty());
            (true, in_text || str_eq(n.as_str(), text_tag))
        },
        XmlEvent::Text(t) => {
            if in_text {
                let mut v = chars_of(t.as_str());
                out.append(&mut v);
            } else {
                assert(out@ =~= old(out)@ + Seq::<char>::empty());
            }
            (true, in_text)
        },
        XmlEvent::Ref(name) => {
            if in_text {
                match ref_value(name.as_str()) {
                    Some(t) => {
                        let mut v = chars_of(t.as_str());
                        out.append(&mut v);
                    },
                    None => {
                        assert(out@ =~= old(out)@ + Seq::<char>::empty());
                    },
                }
            } else {
                assert(out@ =~= old(out)@ + Seq::<char>::empty());
            }
            (true, in_text)
        },
        XmlEvent::End(n) => {
            if str_eq(n.as_str(), text_tag) {
                assert(out@ =~= old(out)@ + Seq::<char>::empty());
                (true, false)
            } else {
                let is_para = match para_tag {
                    Some(p) => str_eq(n.as_str(), p),
                    None => false,
                };
                if is_para {
                    out.push('\n');
                    assert(out@ =~= old(out)@ + seq!['\n']);
                } else {
                    assert(out@ =~= old(out)@ + Seq::<char>::empty());
                }
                (true, in_text)
            }
        },
        XmlEvent::Empty(n) => {
            let is_para = match para_tag {
                Some(p) => str_eq(n.as_str(), p),
                None => false,
            };
            if is_para {
                out.push('\n');
                assert(out@ =~= old(out)@ + seq!['\n']);
            } else {
                assert(out@ =~= old(out)@ + Seq::<char>::empty());
            }
            (true, in_text)
        },
        XmlEvent::Other => {
            assert(out@ =~= old(out)@ + Seq::<char>::empty());
            (true, in_text)
        },
    }
}

/// The text the pass collects from a sequence of events (see
/// [`tagged_text`]).
pub fn tagged_text_of(events: &Vec<XmlEvent>, text_tag: &str, para_tag: Option<&str>) -> (r: String)
    ensures
        r@ == tagged_text(events_view(events@), text_tag@, opt_view(para_tag)),
{
    let ghost evs = events_view(events@);
    let ghost tt = text_tag@;
    let ghost pt = opt_view(para_tag);
    let mut out: Vec<char> = Vec::new();
    let mut in_text = false;
    let mut done = false;
    let mut i: usize = 0;
    while i < events.len() && !done
        invariant
            i <= events@.len(),
            evs == events_view(events@),
            tt == text_tag@,
            pt == opt_view(para_tag),
            done ==> tagged_text(evs, tt, pt) == out@,
            !done ==> tagged_text(evs, tt, pt) == out@ + text_from(evs, i as int, in_text, tt, pt),
        decreases events.len() - i,
    {
        let ghost before = out@;
        assert(evs[i as int] == events@[i as int]@);
        let (go, next) = pass_event(&mut out, in_text, &events[i], text_tag, para_tag);
        if go {
            assert(before + text_from(evs, i as int, in_text, tt, pt) =~= out@ + text_from(evs, i + 1, next, tt, pt));
            in_text = next;
        } else {
            assert(out@ =~= before);
            assert(before + Seq::<char>::empty() =~= before);
            done = true;
        }
        i += 1;
    }
    if !done {
        assert(out@ + Seq::<char>::empty() =~= out@);
    }
    string_from_chars(&out)
}

/// The first `n` events quick-xml gives for the document.
pub open spec fn xml_events(xml: Seq<u8>, n: nat) -> Seq<XmlEventView> {
    Seq::new(n, |k: int| xml_event_at(xml, k as nat))
}

/// The most events the pass reads from a document of `len` bytes: every
/// event but the last covers at least one byte, so the end is met well
/// before this.
pub open spec fn event_limit(len: nat) -> nat {
    2 * len + 2
}

/// The text of the elements named `text_tag` in an XML document, with a
/// line break after each closing `para_tag` (see [`tagged_text`]); a
/// malformed document gives the text found before the fault.
pub fn extract_tagged_text(xml: &[u8], text_tag: &str, para_tag: Option<&str>) -> (r: String)
    ensures
        r@ == tagged_text(xml_events(xml@, event_limit(xml@.len())), text_tag@, opt_view(para_tag)),
{
    let limit: u128 = (xml.len() as u128) * 2 + 2;
    let ghost evs = xml_events(xml@, event_limit(xml@.len()));
    let ghost tt = text_tag@;
    let ghost pt = opt_view(para_tag);
    let mut cursor = XmlCursor::new(xml);
    let mut out: Vec<char> = Vec::new();
    let mut in_text = false;
    let mut done = false;
    let mut k: u128 = 0;
    while k < limit && !done
        invariant
            limit == event_limit(xml@.len()),
            evs.len() == limit,
            evs == xml_events(xml@, event_limit(xml@.len())),
            k <= limit,
            cursor@ == (xml@, k as nat),
            tt == text_tag@,
            pt == opt_view(para_tag),
            done ==> tagged_text(evs, tt, pt) == out@,
            !done ==> tagged_text(evs, tt, pt) == out@ + text_from(evs, k as int, in_text, tt, pt),
        decreases limit - k,
    {
        let ghost before = out@;
        let ev = cursor.next_event();
        assert(ev@ == evs[k as int]);
        let (go, next) = pass_event(&mut out, in_text, &ev, text_tag, para_tag);
        if go {
            assert(before + text_from(evs, k as int, in_text, tt, pt) =~= out@ + text_from(evs, k + 1, next, tt, pt));
            in_text = next;
        } else {
            assert(out@ =~= before);
            assert(before + Seq::<char>::empty() =~= before);
            done = true;
        }
        k += 1;
    }
    if !done {
        assert(out@ + Seq::<char>::empty() =~= out@);
    }
    string_from_chars(&out)
}

} // verus!
