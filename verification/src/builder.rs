//! The tree builder: from a document's text to the tree of elements.
//!
//! The tokenizer collaborator turns the text into the event list; the
//! builder then runs the stack machine of [`crate::model`] over that list,
//! one frame per element still open, and is verified to compute exactly
//! [`crate::model::run`].

use vstd::prelude::*;

use crate::element::XMLElement;
use crate::event::Event;
use crate::event::EventModel;
use crate::model::build_element_model;
use crate::model::close_top;
use crate::model::collapse;
use crate::model::fresh_frame;
use crate::model::parse_model;
use crate::model::root_frame;
use crate::model::run;
use crate::model::with_text;
use crate::model::FrameModel;

verus! {

/// One open element during a run: its tag (`None` for the root pseudo-frame,
/// which no end tag can close) and what has been built for it so far.
struct Frame {
    tag: Option<String>,
    elem: XMLElement,
}

impl Frame {
    spec fn as_model(self) -> FrameModel {
        FrameModel { tag: self.tag.deep_view(), elem: self.elem@ }
    }
}

spec fn frame_views(frames: Seq<Frame>) -> Seq<FrameModel> {
    frames.map_values(|f: Frame| f.as_model())
}

/// The event list that the tokenizer yields for a document's text, cut off
/// at its first tokenizer-level failure: a function of the text alone.
pub uninterp spec fn events_of(content: Seq<char>) -> Seq<EventModel>;

/// Relies on xml::reader::EventReader: pulled over an in-memory string, it
/// yields a deterministic event list, a function of the string alone, and
/// ends the moment it reports a tokenizer error. The start, end and text
/// tokens keep their local name or content; every other token kind is
/// handed over as [`Event::Other`].
#[verifier::external_body]
fn tokenize(content: &str) -> (r: Vec<Event>)
    ensures
        r.deep_view() == events_of(content@),
{
    let mut r = Vec::new();
    for item in xml::EventReader::new(content.as_bytes()) {
        match item {
            Ok(xml::reader::XmlEvent::StartElement { name, .. }) => r.push(
                Event::Start(name.local_name),
            ),
            Ok(xml::reader::XmlEvent::EndElement { name, .. }) => r.push(
                Event::End(name.local_name),
            ),
            Ok(xml::reader::XmlEvent::Characters(content)) => r.push(Event::Text(content)),
            Ok(_) => r.push(Event::Other),
            Err(_) => break,
        }
    }
    r
}

/// Runs the stack machine over `events` from position `start` with the open
/// frames `frames`, innermost last, and returns the bottom frame's finished
/// element together with the position of the first event not consumed.
#[verifier::loop_isolation(false)]
fn run_exec(events: &Vec<Event>, start: usize, frames: Vec<Frame>) -> (r: (XMLElement, usize))
    requires
        frames.len() >= 1,
        forall|k: int| 1 <= k < frames@.len() ==> (#[trigger] frames@[k]).tag is Some,
    ensures
        r.0@ == run(events.deep_view(), start as nat, frame_views(frames@)).0,
        r.1 as nat == run(events.deep_view(), start as nat, frame_views(frames@)).1,
{
    let ghost evs = events.deep_view();
    let ghost goal = run(evs, start as nat, frame_views(frames@));
    let mut st = frames;
    let mut i: usize = start;
    proof {
        assert(evs.len() == events@.len());
    }
    while i < events.len()
        invariant
            st.len() >= 1,
            evs == events.deep_view(),
            evs.len() == events@.len(),
            forall|k: int| 1 <= k < st@.len() ==> (#[trigger] st@[k]).tag is Some,
            run(evs, i as nat, frame_views(st@)) == goal,
        decreases events@.len() - i,
    {
        let ghost pre = frame_views(st@);
        proof {
            assert(evs[i as int] == events@[i as int].deep_view());
        }
        match &events[i] {
            Event::Start(name) => {
                st.push(Frame { tag: Some(name.clone()), elem: XMLElement::new_empty() });
                proof {
                    assert(frame_views(st@) =~= pre.push(fresh_frame(name@)));
                }
            },
            Event::Text(content) => {
                let mut top = st.pop().unwrap();
                top.elem.set_value(content.clone());
                st.push(top);
                proof {
                    assert(frame_views(st@) =~= with_text(pre, content@));
                }
            },
            Event::End(name) => {
                let top_index: usize = st.len() - 1;
                let matches_top = match &st[top_index].tag {
                    Some(tag) => *tag == *name,
                    None => false,
                };
                proof {
                    assert(matches_top == (pre.last().tag == Some(name@)));
                }
                if matches_top {
                    if st.len() == 1 {
                        let top = st.pop().unwrap();
                        proof {
                            assert(pre.last() == top.as_model());
                            assert(run(evs, i as nat, pre) == (pre.last().elem, (i + 1) as nat));
                        }
                        return (top.elem, i + 1);
                    } else {
                        let child = st.pop().unwrap();
                        let mut parent = st.pop().unwrap();
                        let child_tag = child.tag.unwrap();
                        parent.elem.add_child(child_tag, child.elem);
                        st.push(parent);
                        proof {
                            assert(frame_views(st@) =~= close_top(pre));
                        }
                    }
                }
            },
            Event::Other => {},
        }
        i = i + 1;
    }
    proof {
        assert(run(evs, i as nat, frame_views(st@)) == (collapse(frame_views(st@)), i as nat));
    }
    while st.len() > 1
        invariant
            st.len() >= 1,
            forall|k: int| 1 <= k < st@.len() ==> (#[trigger] st@[k]).tag is Some,
            collapse(frame_views(st@)) == goal.0,
        decreases st.len(),
    {
        let ghost pre = frame_views(st@);
        let child = st.pop().unwrap();
        let mut parent = st.pop().unwrap();
        let child_tag = child.tag.unwrap();
        parent.elem.add_child(child_tag, child.elem);
        st.push(parent);
        proof {
            assert(frame_views(st@) =~= close_top(pre));
        }
    }
    let bottom = st.pop().unwrap();
    (bottom.elem, i)
}

/// Builds the element for `searched_tag` out of the events at `*pos` and
/// after, exactly as the model's [`build_element_model`] says: events are
/// consumed one at a time, a start event opens a nested child, a text event
/// overwrites the value, and the run stops just past the end event named
/// `searched_tag` — or at the end of the list, returning what accumulated.
/// `*pos` is left on the first event not consumed.
///
/// ## Arguments
/// `events` The document's events
/// `pos` The position to start from, advanced past the consumed events
/// `searched_tag` The tag whose element is being built
///
/// ## Returns
/// The element built for `searched_tag`
pub fn get_next_tag(events: &Vec<Event>, pos: &mut usize, searched_tag: &str) -> (r: XMLElement)
    ensures
        r@ == build_element_model(events.deep_view(), *old(pos) as nat, searched_tag@).0,
        *final(pos) as nat == build_element_model(
            events.deep_view(),
            *old(pos) as nat,
            searched_tag@,
        ).1,
{
    let mut frames: Vec<Frame> = Vec::new();
    frames.push(Frame { tag: Some(searched_tag.to_owned()), elem: XMLElement::new_empty() });
    proof {
        assert(frame_views(frames@) =~= seq![fresh_frame(searched_tag@)]);
    }
    let built = run_exec(events, *pos, frames);
    *pos = built.1;
    built.0
}

/// Parses a complete document held in memory: the tokenizer turns it into
/// events, and every top-level element found is inserted into the root
/// node's mapping under its tag name, a later element overwriting an
/// earlier one of the same name. The root node itself carries no value.
/// The result is exactly [`parse_model`] of the document's events.
///
/// ## Arguments
/// `xml_content` - A string of markup tags
///
/// ## Returns
/// The root node, whose children are the tree of elements
pub fn parse_xml_content(xml_content: &str) -> (r: XMLElement)
    ensures
        r@ == parse_model(events_of(xml_content@)),
{
    let events = tokenize(xml_content);
    let mut frames: Vec<Frame> = Vec::new();
    frames.push(Frame { tag: None, elem: XMLElement::new_empty() });
    proof {
        assert(frame_views(frames@) =~= seq![root_frame()]);
    }
    let built = run_exec(&events, 0, frames);
    built.0.into_root()
}

} // verus!
