//! The mathematical model of the tree builder.
//!
//! The builder is, in spirit, a recursion over a shared event stream: each
//! call builds one element, pulling events until its own end tag arrives.
//! Here that recursion is flattened onto an explicit stack of frames, one
//! frame per element still being built, and the whole builder becomes a
//! single spec function that consumes one event per step.

use vstd::prelude::*;

use crate::event::EventModel;

verus! {

/// A tree node in mathematical form: an optional text value and a mapping
/// from child tag name to child node. A later text event or a later child
/// with the same tag name overwrites the earlier one.
pub ghost struct ElementModel {
    pub value: Option<Seq<char>>,
    pub children: Map<Seq<char>, ElementModel>,
}

/// A node with no value and no children: what every element starts as.
pub open spec fn empty_element() -> ElementModel {
    ElementModel { value: None, children: Map::empty() }
}

/// One frame of the builder: the tag of the element under construction
/// (`None` for the pseudo-frame that collects the document's root elements,
/// which no end tag can close) and what has accumulated for it so far.
pub ghost struct FrameModel {
    pub tag: Option<Seq<char>>,
    pub elem: ElementModel,
}

/// The frame pushed when a start event for `tag` arrives.
pub open spec fn fresh_frame(tag: Seq<char>) -> FrameModel {
    FrameModel { tag: Some(tag), elem: empty_element() }
}

/// The bottom frame of a whole-document run.
pub open spec fn root_frame() -> FrameModel {
    FrameModel { tag: None, elem: empty_element() }
}

/// The stack after a text event: the top frame's value is overwritten with
/// the new content; nothing is appended.
pub open spec fn with_text(st: Seq<FrameModel>, content: Seq<char>) -> Seq<FrameModel>
    recommends
        st.len() >= 1,
{
    st.update(
        st.len() - 1,
        (FrameModel {
            tag: st.last().tag,
            elem: ElementModel { value: Some(content), children: st.last().elem.children },
        }),
    )
}

/// The stack after the top element closes: its frame is popped and the
/// finished element is inserted into the parent's children under its tag,
/// overwriting an earlier child of the same name.
pub open spec fn close_top(st: Seq<FrameModel>) -> Seq<FrameModel>
    recommends
        st.len() >= 2,
        st.last().tag is Some,
{
    let child = st.last();
    let parent = st[st.len() - 2];
    st.drop_last().update(
        st.len() - 2,
        (FrameModel {
            tag: parent.tag,
            elem: ElementModel {
                value: parent.elem.value,
                children: parent.elem.children.insert(child.tag.unwrap(), child.elem),
            },
        }),
    )
}

/// Exhaustion of the event stream: every frame still open is handed to its
/// parent as it stands, from the innermost outwards, and the bottom frame's
/// element is the result. No error is raised for unterminated elements.
pub open spec fn collapse(st: Seq<FrameModel>) -> ElementModel
    decreases st.len(),
{
    if st.len() == 0 {
        empty_element()
    } else if st.len() == 1 {
        st[0].elem
    } else {
        collapse(close_top(st))
    }
}

/// The builder itself, one consumed event per step, starting at position `i`
/// with the open frames `st` (innermost last):
///
/// * a start event pushes a fresh frame for the named element;
/// * a text event overwrites the value of the element being built;
/// * an end event whose name equals the top frame's tag closes that element —
///   when it is the bottom frame the run stops and yields it, with the
///   position just past the end event;
/// * every other event, including an end event that matches no open tag, is
///   consumed and ignored;
/// * an exhausted stream yields the collapse of whatever is still open.
///
/// The result is the bottom frame's finished element and the position of the
/// first event the run did not consume.
pub open spec fn run(events: Seq<EventModel>, i: nat, st: Seq<FrameModel>) -> (ElementModel, nat)
    recommends
        st.len() >= 1,
    decreases events.len() - i,
{
    if i >= events.len() || st.len() == 0 {
        (collapse(st), i)
    } else {
        match events[i as int] {
            EventModel::Start(name) => run(events, i + 1, st.push(fresh_frame(name))),
            EventModel::Text(content) => run(events, i + 1, with_text(st, content)),
            EventModel::End(name) => {
                if st.last().tag == Some(name) {
                    if st.len() == 1 {
                        (st.last().elem, (i + 1) as nat)
                    } else {
                        run(events, i + 1, close_top(st))
                    }
                } else {
                    run(events, i + 1, st)
                }
            },
            EventModel::Other => run(events, i + 1, st),
        }
    }
}

/// The element built for `tag` from position `i` on, together with the
/// position just past the events it consumed.
pub open spec fn build_element_model(events: Seq<EventModel>, i: nat, tag: Seq<char>) -> (
    ElementModel,
    nat,
) {
    run(events, i, seq![fresh_frame(tag)])
}

/// The tree built from a whole document's events: the root pseudo-frame
/// collects every top-level element, its own value stays empty, and no end
/// tag can close it.
pub open spec fn parse_model(events: Seq<EventModel>) -> ElementModel {
    ElementModel { value: None, children: run(events, 0, seq![root_frame()]).0.children }
}

} // verus!
