//! The event alphabet of the tree builder: what the tokenizer hands over.

use vstd::prelude::*;

verus! {

/// One markup token: the start or the end of a tagged region, literal
/// character content between tags, or any other token kind, which the
/// builder ignores.
#[derive(Debug)]
pub enum Event {
    Start(String),
    End(String),
    Text(String),
    Other,
}

/// The mathematical form of an [`Event`]: names and content as character
/// sequences.
pub ghost enum EventModel {
    Start(Seq<char>),
    End(Seq<char>),
    Text(Seq<char>),
    Other,
}

impl View for Event {
    type V = EventModel;

    open spec fn view(&self) -> EventModel {
        match self {
            Event::Start(name) => EventModel::Start(name@),
            Event::End(name) => EventModel::End(name@),
            Event::Text(content) => EventModel::Text(content@),
            Event::Other => EventModel::Other,
        }
    }
}

impl DeepView for Event {
    type V = EventModel;

    open spec fn deep_view(&self) -> EventModel {
        self.view()
    }
}

/// Reports whether the event starts a tagged region and, if it does, hands
/// back the region's tag name.
pub fn get_starting_tag(element: &Event) -> (r: Option<&str>)
    ensures
        r is Some <==> element@ is Start,
        r matches Some(tag) ==> tag@ == element@->Start_0,
{
    match element {
        Event::Start(name) => Some(name.as_str()),
        _ => None,
    }
}

/// Reports whether the event is the end of the tagged region named
/// `tag_name`: an end event whose name equals `tag_name` exactly.
pub fn is_ending_tag(tag_name: &str, element: &Event) -> (r: bool)
    ensures
        r == (element@ matches EventModel::End(name) && name == tag_name@),
{
    match element {
        Event::End(name) => {
            let searched: String = tag_name.to_owned();
            *name == searched
        },
        _ => false,
    }
}

} // verus!
