//! Tag values: the name and attributes of a markup element.
//!
//! A tag is supplied fully formed by the tokenizer; the tree only reads its
//! name and renders its opening syntax.

use vstd::prelude::*;
use vstd::string::StringExecFns;

verus! {

/// Ghost model of an attribute: its name and, if present, its value.
pub struct AttrView {
    pub name: Seq<char>,
    pub value: Option<Seq<char>>,
}

/// Ghost model of a tag: its name and its ordered attributes.
pub struct TagView {
    pub name: Seq<char>,
    pub attrs: Seq<AttrView>,
}

/// The text of one attribute inside an opening tag: a leading space, the
/// attribute name, and `="value"` when the attribute carries a value.
pub open spec fn attr_text(a: AttrView) -> Seq<char> {
    " "@ + a.name + match a.value {
        Some(v) => "=\""@ + v + "\""@,
        None => Seq::<char>::empty(),
    }
}

/// The concatenated text of a sequence of attributes, in order.
pub open spec fn attrs_text(attrs: Seq<AttrView>) -> Seq<char>
    decreases attrs.len(),
{
    if attrs.len() == 0 {
        Seq::<char>::empty()
    } else {
        attrs_text(attrs.drop_last()) + attr_text(attrs.last())
    }
}

impl TagView {
    /// The inner text of the tag's opening syntax: the name followed by the
    /// attributes.  The surrounding `<`, `>` or ` />` belongs to the tree.
    pub open spec fn text(self) -> Seq<char> {
        self.name + attrs_text(self.attrs)
    }
}

/// One attribute of a tag, e.g. `id="blob"` or a bare `disabled`.
#[derive(Debug)]
pub struct Attribute {
    /// Name of the attribute.
    pub name: String,
    /// Value of the attribute, absent for a bare attribute.
    pub value: Option<String>,
}

impl View for Attribute {
    type V = AttrView;

    open spec fn view(&self) -> AttrView {
        AttrView {
            name: self.name@,
            value: match self.value {
                Some(v) => Some(v@),
                None => None,
            },
        }
    }
}

impl DeepView for Attribute {
    type V = AttrView;

    open spec fn deep_view(&self) -> AttrView {
        self.view()
    }
}

/// An opening tag: its name and its ordered attributes.
#[derive(Debug)]
pub struct Tag {
    /// Name of the tag, compared case-sensitively when a closing tag is
    /// resolved.
    pub name: String,
    /// Attributes of the tag, in source order.
    pub attributes: Vec<Attribute>,
}

impl View for Tag {
    type V = TagView;

    open spec fn view(&self) -> TagView {
        TagView { name: self.name@, attrs: self.attributes.deep_view() }
    }
}

impl Tag {
    /// Renders the inner text of the tag's opening syntax: the name followed
    /// by each attribute.
    pub fn render(&self) -> (r: String)
        ensures
            r@ == self@.text(),
    {
        let mut r = self.name.clone();
        let mut i: usize = 0;
        proof {
            assert(self.attributes.deep_view().subrange(0, 0) =~= Seq::<AttrView>::empty());
            assert(self.name@ + attrs_text(self.attributes.deep_view().subrange(0, 0))
                =~= self.name@);
        }
        while i < self.attributes.len()
            invariant
                i <= self.attributes@.len(),
                r@ == self.name@ + attrs_text(self.attributes.deep_view().subrange(0, i as int)),
            decreases self.attributes@.len() - i,
        {
            let a = &self.attributes[i];
            r.append(" ");
            r.append(a.name.as_str());
            match &a.value {
                Some(v) => {
                    r.append("=\"");
                    r.append(v.as_str());
                    r.append("\"");
                }
                None => {}
            }
            proof {
                let attrs = self.attributes.deep_view();
                assert(attrs.subrange(0, i + 1).drop_last() =~= attrs.subrange(0, i as int));
                assert(attrs.subrange(0, i + 1).last() == attrs[i as int]);
                assert(r@ =~= self.name@ + attrs_text(attrs.subrange(0, i + 1)));
            }
            i = i + 1;
        }
        proof {
            assert(self.attributes.deep_view().subrange(0, self.attributes@.len() as int)
                =~= self.attributes.deep_view());
        }
        r
    }
}

/// Lifecycle state of a tag node: still open, closed by a matching closing
/// tag, or self-closing.
#[derive(Debug, Clone, Copy, PartialEq, Eq)]
pub enum TagType {
    /// The tag was opened and not yet closed: `<div>`.
    Opened,
    /// The tag was closed by a matching closing tag: `<div></div>`.
    Closed,
    /// The tag closes itself and never has children: `<div />`.
    SelfClosing,
}

impl TagType {
    /// Whether the tag can still accept children.
    pub fn is_open(&self) -> (r: bool)
        ensures
            r == (*self is Opened),
    {
        matches!(self, TagType::Opened)
    }
}

/// Ghost model of the outcome of resolving a closing tag.
pub enum ClosingStatusView {
    /// The innermost open tag had the requested name and was closed.
    Success,
    /// No tag is open anywhere along the active branch.
    NoOpenTag,
    /// An open tag exists but its name differs; carries the open name.
    WrongName(Seq<char>),
}

/// Outcome of resolving a closing tag against the tree.
#[derive(Debug, PartialEq, Eq)]
pub enum TagClosingStatus {
    /// The innermost open tag had the requested name and was closed.
    Success,
    /// No tag is open anywhere along the active branch.
    NoOpenTag,
    /// An open tag exists but its name differs; carries the open name.
    WrongName(String),
}

impl View for TagClosingStatus {
    type V = ClosingStatusView;

    open spec fn view(&self) -> ClosingStatusView {
        match self {
            TagClosingStatus::Success => ClosingStatusView::Success,
            TagClosingStatus::NoOpenTag => ClosingStatusView::NoOpenTag,
            TagClosingStatus::WrongName(name) => ClosingStatusView::WrongName(name@),
        }
    }
}

} // verus!
