//! The tree node and its read-only query interface.

use vstd::prelude::*;

use crate::model::ElementModel;

verus! {

/// A node of the built tree: an optional text value and the direct children,
/// keyed by tag name.
///
/// The children are held as a list of (tag, element) pairs in insertion
/// order; a later pair shadows an earlier pair with the same tag, so the
/// node stands for a mapping in which the last occurrence wins. The fields
/// are not exposed: a finished tree is read through [`XMLElement::get_value`]
/// and [`XMLElement::get`] and never changed.
#[derive(Debug)]
pub struct XMLElement {
    pub(crate) value: Option<String>,
    pub(crate) children: Vec<(String, XMLElement)>,
}

/// The mapping that a list of (tag, element) pairs stands for: the pairs are
/// inserted in order, so of two pairs with the same tag the later one wins.
pub open spec fn assoc_view(entries: Seq<(String, XMLElement)>) -> Map<Seq<char>, ElementModel>
    decreases entries,
{
    if entries.len() == 0 {
        Map::empty()
    } else {
        assoc_view(entries.drop_last()).insert(entries.last().0@, entries.last().1.as_model())
    }
}

impl XMLElement {
    /// The node as its mathematical form.
    pub closed spec fn as_model(self) -> ElementModel
        decreases self,
    {
        ElementModel { value: self.value.deep_view(), children: assoc_view(self.children@) }
    }
}

impl View for XMLElement {
    type V = ElementModel;

    open spec fn view(&self) -> ElementModel {
        self.as_model()
    }
}

impl XMLElement {
    /// A node with no value and no children yet.
    pub(crate) fn new_empty() -> (r: XMLElement)
        ensures
            r@ == crate::model::empty_element(),
    {
        let r = XMLElement { value: None, children: Vec::new() };
        proof {
            assert(r.children@.len() == 0);
        }
        r
    }

    /// Overwrites the node's text value; an earlier value is lost.
    pub(crate) fn set_value(&mut self, content: String)
        ensures
            (final(self)@ == ElementModel {
                value: Some(content@),
                children: old(self)@.children,
            }),
    {
        self.value = Some(content);
    }

    /// Inserts a finished child under its tag name; an earlier child of the
    /// same name is overwritten.
    pub(crate) fn add_child(&mut self, tag: String, child: XMLElement)
        ensures
            (final(self)@ == ElementModel {
                value: old(self)@.value,
                children: old(self)@.children.insert(tag@, child@),
            }),
    {
        let ghost before = self.children@;
        let ghost pair = (tag, child);
        self.children.push((tag, child));
        proof {
            assert(self.children@.drop_last() =~= before);
            assert(self.children@.last() == pair);
        }
    }

    /// The node holding a finished run's root mapping: the children are
    /// kept, the value slot stays empty.
    pub(crate) fn into_root(self) -> (r: XMLElement)
        ensures
            (r@ == ElementModel { value: None, children: self@.children }),
    {
        XMLElement { value: None, children: self.children }
    }

    /// Retrieves the text value of the node, if one was recorded. The node
    /// is only read: every call returns an equal result.
    ///
    /// ## Returns
    /// The value of the node if one exists
    pub fn get_value(&self) -> (r: Option<String>)
        ensures
            r.deep_view() == self@.value,
    {
        match &self.value {
            Some(content) => Some(content.clone()),
            None => None,
        }
    }

    /// Searches through the direct children of the node and returns the one
    /// that the tag names, if one exists. The node is only read: every call
    /// returns an equal result.
    ///
    /// ## Arguments
    /// `tag` The tag name that is being searched
    ///
    /// ## Returns
    /// The child under that tag name
    pub fn get(&self, tag: &str) -> (r: Option<&XMLElement>)
        ensures
            r is Some <==> self@.children.contains_key(tag@),
            r matches Some(child) ==> child@ == self@.children[tag@],
    {
        let searched: String = tag.to_owned();
        let ghost all = self.children@;
        let mut j: usize = self.children.len();
        proof {
            assert(all.take(j as int) =~= all);
        }
        while j > 0
            invariant
                j <= self.children.len(),
                all == self.children@,
                searched@ == tag@,
                assoc_view(all).contains_key(tag@) == assoc_view(
                    all.take(j as int),
                ).contains_key(tag@),
                assoc_view(all).contains_key(tag@) ==> assoc_view(all)[tag@] == assoc_view(
                    all.take(j as int),
                )[tag@],
            decreases j,
        {
            j = j - 1;
            proof {
                assert(all.take(j + 1).drop_last() =~= all.take(j as int));
                assert(all.take(j + 1).last() == all[j as int]);
            }
            if self.children[j].0 == searched {
                return Some(&self.children[j].1);
            }
        }
        proof {
            assert(all.take(0) =~= Seq::<(String, XMLElement)>::empty());
        }
        None
    }

    /// Whether the node has no children at all.
    pub fn is_leaf(&self) -> (r: bool)
        ensures
            r <==> self@.children.dom() == Set::<Seq<char>>::empty(),
    {
        let r = self.children.len() == 0;
        proof {
            if self.children@.len() == 0 {
                assert(self@.children.dom() =~= Set::<Seq<char>>::empty());
            } else {
                assert(self@.children.contains_key(self.children@.last().0@));
            }
        }
        r
    }
}

} // verus!
