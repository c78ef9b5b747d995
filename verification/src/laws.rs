//! Laws of the builder that relate whole runs to the event list.

use vstd::prelude::*;

use crate::event::EventModel;
use crate::model::close_top;
use crate::model::collapse;
use crate::model::fresh_frame;
use crate::model::parse_model;
use crate::model::root_frame;
use crate::model::run;
use crate::model::with_text;
use crate::model::FrameModel;

verus! {

/// The names of the top-level start events of an event list, from position
/// `i` on: the start events that arrive while no element opened earlier in
/// the list is still open. `open_tags` holds the tags of the elements open
/// so far, innermost last; an end event closes the innermost one exactly
/// when the names agree, as in the builder.
pub open spec fn top_level_tags(
    events: Seq<EventModel>,
    i: nat,
    open_tags: Seq<Seq<char>>,
) -> Set<Seq<char>>
    decreases events.len() - i,
{
    if i >= events.len() {
        Set::empty()
    } else {
        match events[i as int] {
            EventModel::Start(name) => {
                if open_tags.len() == 0 {
                    top_level_tags(events, i + 1, open_tags.push(name)).insert(name)
                } else {
                    top_level_tags(events, i + 1, open_tags.push(name))
                }
            },
            EventModel::End(name) => {
                if open_tags.len() > 0 && open_tags.last() == name {
                    top_level_tags(events, i + 1, open_tags.drop_last())
                } else {
                    top_level_tags(events, i + 1, open_tags)
                }
            },
            EventModel::Text(content) => top_level_tags(events, i + 1, open_tags),
            EventModel::Other => top_level_tags(events, i + 1, open_tags),
        }
    }
}

/// The tags of the frames above the bottom one, innermost last.
spec fn open_tags_of(st: Seq<FrameModel>) -> Seq<Seq<char>>
    recommends
        st.len() >= 1,
{
    Seq::new((st.len() - 1) as nat, |k: int| st[k + 1].tag.unwrap())
}

/// The tag of the frame directly above the bottom one, if there is one: the
/// one tag of the current stack that will still reach the bottom frame's
/// children.
spec fn level_one_tag(st: Seq<FrameModel>) -> Set<Seq<char>> {
    if st.len() >= 2 {
        set![st[1].tag.unwrap()]
    } else {
        Set::empty()
    }
}

/// Collapsing an exhausted stack adds exactly one key to the bottom frame's
/// children: the tag of the frame directly above it, if any.
proof fn lemma_collapse_dom(st: Seq<FrameModel>)
    requires
        st.len() >= 1,
        forall|k: int| 1 <= k < st.len() ==> (#[trigger] st[k]).tag is Some,
    ensures
        collapse(st).children.dom() =~= st[0].elem.children.dom().union(level_one_tag(st)),
    decreases st.len(),
{
    if st.len() == 1 {
    } else {
        let st2 = close_top(st);
        assert(st2.len() == st.len() - 1);
        if st.len() == 2 {
            assert(collapse(st2) == st2[0].elem);
            assert(collapse(st) == collapse(st2));
        } else {
            assert(st2[0] == st[0]);
            assert(st2[1].tag == st[1].tag);
            assert(forall|k: int| 1 <= k < st2.len() ==> (#[trigger] st2[k]).tag is Some);
            lemma_collapse_dom(st2);
        }
    }
}

/// The keys that a run adds to the bottom frame's children are the tag of
/// the frame directly above it and the names of the top-level start events
/// still to come.
proof fn lemma_run_dom(events: Seq<EventModel>, i: nat, st: Seq<FrameModel>)
    requires
        st.len() >= 1,
        st[0].tag is None,
        forall|k: int| 1 <= k < st.len() ==> (#[trigger] st[k]).tag is Some,
    ensures
        run(events, i, st).0.children.dom() =~= st[0].elem.children.dom().union(
            level_one_tag(st),
        ).union(top_level_tags(events, i, open_tags_of(st))),
    decreases events.len() - i,
{
    if i >= events.len() {
        lemma_collapse_dom(st);
    } else {
        match events[i as int] {
            EventModel::Start(name) => {
                let st2 = st.push(fresh_frame(name));
                assert(st2[0] == st[0]);
                assert(forall|k: int| 1 <= k < st2.len() ==> (#[trigger] st2[k]).tag is Some);
                lemma_run_dom(events, i + 1, st2);
                assert(open_tags_of(st2) =~= open_tags_of(st).push(name));
                if st.len() == 1 {
                    assert(st2[1] == fresh_frame(name));
                } else {
                    assert(st2[1] == st[1]);
                }
            },
            EventModel::Text(content) => {
                let st2 = with_text(st, content);
                assert(st2.len() == st.len());
                assert(st2[0].elem.children == st[0].elem.children);
                assert(forall|k: int| 1 <= k < st2.len() ==> (#[trigger] st2[k]).tag == st[k].tag);
                lemma_run_dom(events, i + 1, st2);
                assert(open_tags_of(st2) =~= open_tags_of(st));
            },
            EventModel::End(name) => {
                if st.last().tag == Some(name) {
                    assert(st.len() >= 2);
                    assert(open_tags_of(st).len() > 0);
                    assert(open_tags_of(st).last() == name);
                    let st2 = close_top(st);
                    assert(st2.len() == st.len() - 1);
                    assert(forall|k: int| 1 <= k < st2.len() ==> (#[trigger] st2[k]).tag == st[k].tag);
                    assert(open_tags_of(st2) =~= open_tags_of(st).drop_last());
                    if st.len() == 2 {
                        assert(st2[0].elem.children == st[0].elem.children.insert(
                            st[1].tag.unwrap(),
                            st[1].elem,
                        ));
                        lemma_run_dom(events, i + 1, st2);
                    } else {
                        assert(st2[0] == st[0]);
                        lemma_run_dom(events, i + 1, st2);
                    }
                } else {
                    if st.len() >= 2 {
                        assert(open_tags_of(st).last() == st.last().tag.unwrap());
                        assert(st.last().tag is Some);
                        assert(open_tags_of(st).last() != name);
                    }
                    lemma_run_dom(events, i + 1, st);
                }
            },
            EventModel::Other => {
                lemma_run_dom(events, i + 1, st);
            },
        }
    }
}

/// The round trip of tag names: for every event list, the keys of the root
/// mapping that the builder produces are exactly the names of the list's
/// top-level start events — order-independent, duplicates collapsed.
pub proof fn lemma_root_tag_names(events: Seq<EventModel>)
    ensures
        parse_model(events).children.dom() =~= top_level_tags(events, 0, Seq::empty()),
{
    let st = seq![root_frame()];
    lemma_run_dom(events, 0, st);
    assert(open_tags_of(st) =~= Seq::<Seq<char>>::empty());
    assert(st[0].elem.children.dom() =~= Set::<Seq<char>>::empty());
}

} // verus!
