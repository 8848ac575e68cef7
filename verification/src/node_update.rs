//! The payload delta of a node: a record of independently optional fields.

use core::ops::AddAssign;
use vstd::prelude::*;

verus! {

/// A partial update of a node's attributes. A field that is `None` leaves the
/// attribute as it was.
///
/// `size` holds the IEEE-754 bit pattern of a single-precision number: the
/// algebra only moves it around and never reads it as a number.
#[derive(Debug)]
pub struct NodeUpdate {
    pub label: Option<String>,
    pub size: Option<u32>,
    pub url: Option<String>,
    pub red: Option<u8>,
    pub green: Option<u8>,
    pub blue: Option<u8>,
    pub show_label: Option<bool>,
}

/// What an update holds, each text as the sequence of its characters.
pub struct NodeUpdateView {
    pub label: Option<Seq<char>>,
    pub size: Option<u32>,
    pub url: Option<Seq<char>>,
    pub red: Option<u8>,
    pub green: Option<u8>,
    pub blue: Option<u8>,
    pub show_label: Option<bool>,
}

/// The characters of an optional text.
pub open spec fn text_view(text: Option<String>) -> Option<Seq<char>> {
    match text {
        Some(text) => Some(text@),
        None => None,
    }
}

impl View for NodeUpdate {
    type V = NodeUpdateView;

    open spec fn view(&self) -> NodeUpdateView {
        NodeUpdateView {
            label: text_view(self.label),
            size: self.size,
            url: text_view(self.url),
            red: self.red,
            green: self.green,
            blue: self.blue,
            show_label: self.show_label,
        }
    }
}

/// Whether two optional texts are both absent or hold the same characters.
fn same_text(text: &Option<String>, other: &Option<String>) -> (same: bool)
    ensures
        same == (text_view(*text) == text_view(*other)),
{
    match (text, other) {
        (Some(text), Some(other)) => text.eq(other),
        (None, None) => true,
        _ => false,
    }
}

impl PartialEq for NodeUpdate {
    /// Two updates are equal where they set the same fields to the same
    /// values.
    fn eq(&self, other: &NodeUpdate) -> (equal: bool) {
        same_text(&self.label, &other.label) && self.size == other.size && same_text(
            &self.url,
            &other.url,
        ) && self.red == other.red && self.green == other.green && self.blue == other.blue
            && self.show_label == other.show_label
    }
}

impl vstd::std_specs::cmp::PartialEqSpecImpl for NodeUpdate {
    open spec fn obeys_eq_spec() -> bool {
        true
    }

    open spec fn eq_spec(&self, other: &NodeUpdate) -> bool {
        self@ == other@
    }
}

/// The later of two optional values: `newer` where it is present, else `older`.
pub open spec fn later<A>(older: Option<A>, newer: Option<A>) -> Option<A> {
    if newer is Some {
        newer
    } else {
        older
    }
}

impl NodeUpdate {
    /// The update that changes nothing: every field absent.
    pub open spec fn empty() -> NodeUpdate {
        NodeUpdate {
            label: None,
            size: None,
            url: None,
            red: None,
            green: None,
            blue: None,
            show_label: None,
        }
    }

    /// `self` followed by `other`: field by field, the value of `other` where
    /// it has one, else the value of `self`.
    pub open spec fn merged(self, other: NodeUpdate) -> NodeUpdate {
        NodeUpdate {
            label: later(self.label, other.label),
            size: later(self.size, other.size),
            url: later(self.url, other.url),
            red: later(self.red, other.red),
            green: later(self.green, other.green),
            blue: later(self.blue, other.blue),
            show_label: later(self.show_label, other.show_label),
        }
    }

    /// The update with the label set.
    pub fn with_label(self, label: String) -> (update: NodeUpdate)
        ensures
            update == (NodeUpdate { label: Some(label), ..self }),
    {
        NodeUpdate { label: Some(label), ..self }
    }

    /// The update with the size set, given as the bit pattern of a
    /// single-precision number.
    pub fn with_size(self, size: u32) -> (update: NodeUpdate)
        ensures
            update == (NodeUpdate { size: Some(size), ..self }),
    {
        NodeUpdate { size: Some(size), ..self }
    }

    /// The update with the address set.
    pub fn with_url(self, url: String) -> (update: NodeUpdate)
        ensures
            update == (NodeUpdate { url: Some(url), ..self }),
    {
        NodeUpdate { url: Some(url), ..self }
    }

    /// The update with the red part of the colour set.
    pub fn with_red(self, red: u8) -> (update: NodeUpdate)
        ensures
            update == (NodeUpdate { red: Some(red), ..self }),
    {
        NodeUpdate { red: Some(red), ..self }
    }

    /// The update with the green part of the colour set.
    pub fn with_green(self, green: u8) -> (update: NodeUpdate)
        ensures
            update == (NodeUpdate { green: Some(green), ..self }),
    {
        NodeUpdate { green: Some(green), ..self }
    }

    /// The update with the blue part of the colour set.
    pub fn with_blue(self, blue: u8) -> (update: NodeUpdate)
        ensures
            update == (NodeUpdate { blue: Some(blue), ..self }),
    {
        NodeUpdate { blue: Some(blue), ..self }
    }

    /// The update with the choice to show the label set.
    pub fn with_show_label(self, show_label: bool) -> (update: NodeUpdate)
        ensures
            update == (NodeUpdate { show_label: Some(show_label), ..self }),
    {
        NodeUpdate { show_label: Some(show_label), ..self }
    }

    /// No field is set by both updates.
    pub open spec fn disjoint_from(self, other: NodeUpdate) -> bool {
        &&& !(self.label is Some && other.label is Some)
        &&& !(self.size is Some && other.size is Some)
        &&& !(self.url is Some && other.url is Some)
        &&& !(self.red is Some && other.red is Some)
        &&& !(self.green is Some && other.green is Some)
        &&& !(self.blue is Some && other.blue is Some)
        &&& !(self.show_label is Some && other.show_label is Some)
    }

    /// The empty update is a left and a right identity of merging.
    pub proof fn lemma_merge_identity(x: NodeUpdate)
        ensures
            NodeUpdate::empty().merged(x) == x,
            x.merged(NodeUpdate::empty()) == x,
    {
    }

    /// Merging is associative: updates can be accumulated in groups.
    pub proof fn lemma_merge_associative(a: NodeUpdate, b: NodeUpdate, c: NodeUpdate)
        ensures
            a.merged(b).merged(c) == a.merged(b.merged(c)),
    {
    }

    /// Where two updates set no field in common, the merged update holds every
    /// field that either of them sets, with the value that it was given.
    pub proof fn lemma_merge_disjoint(a: NodeUpdate, b: NodeUpdate)
        requires
            a.disjoint_from(b),
        ensures
            a.merged(b).label == (if a.label is Some { a.label } else { b.label }),
            a.merged(b).size == (if a.size is Some { a.size } else { b.size }),
            a.merged(b).url == (if a.url is Some { a.url } else { b.url }),
            a.merged(b).red == (if a.red is Some { a.red } else { b.red }),
            a.merged(b).green == (if a.green is Some { a.green } else { b.green }),
            a.merged(b).blue == (if a.blue is Some { a.blue } else { b.blue }),
            a.merged(b).show_label == (if a.show_label is Some { a.show_label } else { b.show_label }),
            a.merged(b) == b.merged(a),
    {
    }

    /// A field that the second update sets has the second update's value in
    /// the merged update, whatever the first one held.
    pub proof fn lemma_merge_last_writer_wins(a: NodeUpdate, b: NodeUpdate)
        ensures
            b.label is Some ==> a.merged(b).label == b.label,
            b.size is Some ==> a.merged(b).size == b.size,
            b.url is Some ==> a.merged(b).url == b.url,
            b.red is Some ==> a.merged(b).red == b.red,
            b.green is Some ==> a.merged(b).green == b.green,
            b.blue is Some ==> a.merged(b).blue == b.blue,
            b.show_label is Some ==> a.merged(b).show_label == b.show_label,
    {
    }

    /// A field that the second update leaves out keeps the first update's value.
    pub proof fn lemma_merge_absent_is_noop(a: NodeUpdate, b: NodeUpdate)
        ensures
            b.label is None ==> a.merged(b).label == a.label,
            b.size is None ==> a.merged(b).size == a.size,
            b.url is None ==> a.merged(b).url == a.url,
            b.red is None ==> a.merged(b).red == a.red,
            b.green is None ==> a.merged(b).green == a.green,
            b.blue is None ==> a.merged(b).blue == a.blue,
            b.show_label is None ==> a.merged(b).show_label == a.show_label,
    {
    }
}

impl Clone for NodeUpdate {
    fn clone(&self) -> (copy: NodeUpdate)
        ensures
            copy == *self,
    {
        NodeUpdate {
            label: match &self.label {
                Some(label) => Some(label.clone()),
                None => None,
            },
            size: self.size,
            url: match &self.url {
                Some(url) => Some(url.clone()),
                None => None,
            },
            red: self.red,
            green: self.green,
            blue: self.blue,
            show_label: self.show_label,
        }
    }
}

impl Default for NodeUpdate {
    /// The empty update.
    fn default() -> (update: NodeUpdate)
        ensures
            update == NodeUpdate::empty(),
    {
        NodeUpdate {
            label: None,
            size: None,
            url: None,
            red: None,
            green: None,
            blue: None,
            show_label: None,
        }
    }
}

impl AddAssign for NodeUpdate {
    /// Merges `other` into `self`: each field that `other` sets overwrites
    /// the field of `self`, every other field stays.
    fn add_assign(&mut self, other: NodeUpdate)
        ensures
            *final(self) == old(self).merged(other),
    {
        if let Some(label) = other.label {
            self.label = Some(label);
        }
        if let Some(size) = other.size {
            self.size = Some(size);
        }
        if let Some(url) = other.url {
            self.url = Some(url);
        }
        if let Some(red) = other.red {
            self.red = Some(red);
        }
        if let Some(green) = other.green {
            self.green = Some(green);
        }
        if let Some(blue) = other.blue {
            self.blue = Some(blue);
        }
        if let Some(show_label) = other.show_label {
            self.show_label = Some(show_label);
        }
    }
}

} // verus!
