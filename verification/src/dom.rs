//! The boundary to the document: the facets a binding can own and the calls
//! that the engine asks its host to make. Nodes are named by numbers that the
//! host chooses; what a node is, the host alone knows.

use vstd::prelude::*;
use vstd::string::*;
use crate::value::{Datum, Kind, Value};

verus! {

/// One aspect of a node that can be updated on its own.
#[derive(Debug, PartialEq, Eq)]
pub enum Facet {
    /// The text content of the node.
    Text,
    /// The attribute with this name.
    Attribute(String),
    /// Whether the node has the class with this name.
    Class(String),
    /// The property with this name on the node's own style; a name that
    /// begins with `--` is a custom property.
    Style(String),
    /// The node's children, given as markup that the document parses. What is
    /// written here is not escaped.
    InnerHtml,
}

/// The mathematical content of a [`Facet`].
pub enum FacetView {
    Text,
    Attribute(Seq<char>),
    Class(Seq<char>),
    Style(Seq<char>),
    InnerHtml,
}

impl View for Facet {
    type V = FacetView;

    open spec fn view(&self) -> FacetView {
        match self {
            Facet::Text => FacetView::Text,
            Facet::Attribute(name) => FacetView::Attribute(name@),
            Facet::Class(name) => FacetView::Class(name@),
            Facet::Style(name) => FacetView::Style(name@),
            Facet::InnerHtml => FacetView::InnerHtml,
        }
    }
}

/// A call on the document that the host is to make.
#[derive(Debug, PartialEq, Eq)]
pub enum DomCall {
    SetText { node: usize, text: String },
    SetAttribute { node: usize, name: String, value: String },
    RemoveAttribute { node: usize, name: String },
    AddClass { node: usize, name: String },
    RemoveClass { node: usize, name: String },
    SetStyle { node: usize, property: String, value: String },
    SetInnerHtml { node: usize, html: String },
    /// Attach the listener with this id to the event of this name on the node.
    Listen { node: usize, event: String, listener: usize },
    /// Remove that listener again.
    Unlisten { node: usize, event: String, listener: usize },
    /// Put the subtree that was built under this node.
    Attach { root: usize },
    /// Take it away from there.
    Detach { root: usize },
}

/// The mathematical content of a [`DomCall`].
pub enum DomCallView {
    SetText { node: usize, text: Seq<char> },
    SetAttribute { node: usize, name: Seq<char>, value: Seq<char> },
    RemoveAttribute { node: usize, name: Seq<char> },
    AddClass { node: usize, name: Seq<char> },
    RemoveClass { node: usize, name: Seq<char> },
    SetStyle { node: usize, property: Seq<char>, value: Seq<char> },
    SetInnerHtml { node: usize, html: Seq<char> },
    Listen { node: usize, event: Seq<char>, listener: usize },
    Unlisten { node: usize, event: Seq<char>, listener: usize },
    Attach { root: usize },
    Detach { root: usize },
}

impl View for DomCall {
    type V = DomCallView;

    open spec fn view(&self) -> DomCallView {
        match self {
            DomCall::SetText { node, text } => DomCallView::SetText { node: *node, text: text@ },
            DomCall::SetAttribute { node, name, value } => DomCallView::SetAttribute {
                node: *node,
                name: name@,
                value: value@,
            },
            DomCall::RemoveAttribute { node, name } => DomCallView::RemoveAttribute {
                node: *node,
                name: name@,
            },
            DomCall::AddClass { node, name } => DomCallView::AddClass { node: *node, name: name@ },
            DomCall::RemoveClass { node, name } => DomCallView::RemoveClass {
                node: *node,
                name: name@,
            },
            DomCall::SetStyle { node, property, value } => DomCallView::SetStyle {
                node: *node,
                property: property@,
                value: value@,
            },
            DomCall::SetInnerHtml { node, html } => DomCallView::SetInnerHtml {
                node: *node,
                html: html@,
            },
            DomCall::Listen { node, event, listener } => DomCallView::Listen {
                node: *node,
                event: event@,
                listener: *listener,
            },
            DomCall::Unlisten { node, event, listener } => DomCallView::Unlisten {
                node: *node,
                event: event@,
                listener: *listener,
            },
            DomCall::Attach { root } => DomCallView::Attach { root: *root },
            DomCall::Detach { root } => DomCallView::Detach { root: *root },
        }
    }
}

/// The contents of a list of calls.
pub open spec fn calls_of(calls: Seq<DomCall>) -> Seq<DomCallView> {
    Seq::new(calls.len(), |i: int| calls[i]@)
}

/// Whether a style property name is that of a custom property.
pub open spec fn is_custom(name: Seq<char>) -> bool {
    name.len() >= 2 && name[0] == '-' && name[1] == '-'
}

impl FacetView {
    /// The kinds of value that a facet takes: a text facet a number or a
    /// text, an attribute any value, a class a boolean, a style property and
    /// the markup of a node a text.
    pub open spec fn accepts(self, k: Kind) -> bool {
        match self {
            FacetView::Text => k == Kind::Int || k == Kind::Text,
            FacetView::Attribute(_) => true,
            FacetView::Class(_) => k == Kind::Bool,
            FacetView::Style(_) => k == Kind::Text,
            FacetView::InnerHtml => k == Kind::Text,
        }
    }

    /// The one call that brings this facet of `node` to the value `v`. An
    /// attribute whose value is `false` is removed, not set; a class is added
    /// for `true` and removed otherwise; everything else is set to the string
    /// form of the value, unchanged.
    pub open spec fn write(self, node: usize, v: Datum) -> DomCallView {
        match self {
            FacetView::Text => DomCallView::SetText { node, text: v.text() },
            FacetView::Attribute(name) => if v == Datum::Bool(false) {
                DomCallView::RemoveAttribute { node, name }
            } else {
                DomCallView::SetAttribute { node, name, value: v.text() }
            },
            FacetView::Class(name) => if v == Datum::Bool(true) {
                DomCallView::AddClass { node, name }
            } else {
                DomCallView::RemoveClass { node, name }
            },
            FacetView::Style(property) => DomCallView::SetStyle { node, property, value: v.text() },
            FacetView::InnerHtml => DomCallView::SetInnerHtml { node, html: v.text() },
        }
    }
}

/// Tells whether a style property name begins with `--`.
pub fn custom_name(name: &str) -> (r: bool)
    ensures
        r == is_custom(name@),
{
    name.unicode_len() >= 2 && name.get_char(0) == '-' && name.get_char(1) == '-'
}

impl Facet {
    /// Whether two facets are the same aspect: same variant, same name.
    pub fn same(&self, other: &Facet) -> (r: bool)
        ensures
            r == (self@ == other@),
    {
        match (self, other) {
            (Facet::Text, Facet::Text) => true,
            (Facet::Attribute(a), Facet::Attribute(b)) => *a == *b,
            (Facet::Class(a), Facet::Class(b)) => *a == *b,
            (Facet::Style(a), Facet::Style(b)) => *a == *b,
            (Facet::InnerHtml, Facet::InnerHtml) => true,
            _ => false,
        }
    }

    /// Whether this facet takes values of kind `k`.
    pub fn accepts(&self, k: Kind) -> (r: bool)
        ensures
            r == self@.accepts(k),
    {
        match self {
            Facet::Text => k == Kind::Int || k == Kind::Text,
            Facet::Attribute(_) => true,
            Facet::Class(_) => k == Kind::Bool,
            Facet::Style(_) => k == Kind::Text,
            Facet::InnerHtml => k == Kind::Text,
        }
    }

    /// The call that brings this facet of `node` to the value `v`.
    pub fn write(&self, node: usize, v: &Value) -> (call: DomCall)
        ensures
            call@ == self@.write(node, v@),
    {
        match self {
            Facet::Text => DomCall::SetText { node, text: v.text() },
            Facet::Attribute(name) => if v.same(&Value::Bool(false)) {
                DomCall::RemoveAttribute { node, name: name.clone() }
            } else {
                DomCall::SetAttribute { node, name: name.clone(), value: v.text() }
            },
            Facet::Class(name) => if v.same(&Value::Bool(true)) {
                DomCall::AddClass { node, name: name.clone() }
            } else {
                DomCall::RemoveClass { node, name: name.clone() }
            },
            Facet::Style(property) => DomCall::SetStyle {
                node,
                property: property.clone(),
                value: v.text(),
            },
            Facet::InnerHtml => DomCall::SetInnerHtml { node, html: v.text() },
        }
    }
}

} // verus!
