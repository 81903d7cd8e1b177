//! Ghost model of the markup tree.
//!
//! [`HtmlView`] mirrors the executable tree with mathematical payloads
//! (`Seq<char>` instead of `String`), and the spec functions here define, by
//! structural recursion, what every mutating operation of the tree does and
//! what the tree renders to.

use vstd::prelude::*;

use crate::tag::{ClosingStatusView, TagType, TagView};

verus! {

/// Ghost model of a markup tree node.
#[allow(inconsistent_fields)]
pub enum HtmlView {
    /// An in-progress (`full == false`) or terminated comment.
    Comment { content: Seq<char>, full: bool },
    /// A document declaration such as `<!doctype html>`; always a leaf.
    Document { name: Seq<char>, attr: Option<Seq<char>> },
    /// The initial, empty tree.
    Empty,
    /// A markup element with its lifecycle state and its child subtree.
    Tag { tag: TagView, full: TagType, child: Box<HtmlView> },
    /// A run of raw character data outside any tag syntax.
    Text(Seq<char>),
    /// Two or more sibling nodes at the same nesting level.
    Sequence(Seq<HtmlView>),
}

impl HtmlView {
    /// Whether the next datum may be pushed into this node rather than
    /// beside it.  Text accepts more characters but no nodes.
    pub open spec fn is_pushable(self, is_char: bool) -> bool {
        match self {
            HtmlView::Empty => true,
            HtmlView::Sequence(_) => true,
            HtmlView::Tag { full, .. } => full is Opened,
            HtmlView::Document { .. } => false,
            HtmlView::Text(_) => is_char,
            HtmlView::Comment { full, .. } => !full,
        }
    }

    /// Whether the active branch of the tree ends in a comment that is still
    /// open: the node the next character would land in.
    pub open spec fn in_comment(self) -> bool
        decreases self,
    {
        match self {
            HtmlView::Comment { full, .. } => !full,
            HtmlView::Empty => false,
            HtmlView::Text(_) => false,
            HtmlView::Document { .. } => false,
            HtmlView::Tag { full, child, .. } => full is Opened && child.in_comment(),
            HtmlView::Sequence(items) => items.len() > 0 && items.last().in_comment(),
        }
    }

    /// Whether inserting a node would reach a comment: the attachment target
    /// resolved for node insertion is a comment of either fullness.  Node
    /// insertion is not defined there; the tokenizer never pushes a node
    /// while a comment is the target.
    pub open spec fn node_target_is_comment(self) -> bool
        decreases self,
    {
        match self {
            HtmlView::Comment { .. } => true,
            HtmlView::Tag { full, child, .. } => full is Opened && child.node_target_is_comment(),
            HtmlView::Sequence(items) => items.len() > 0 && items.last().is_pushable(false)
                && items.last().node_target_is_comment(),
            _ => false,
        }
    }

    /// The tree after one character is appended at the attachment target.
    pub open spec fn push_char(self, ch: char) -> HtmlView
        decreases self,
    {
        match self {
            HtmlView::Empty => HtmlView::Text(seq![ch]),
            HtmlView::Text(text) => HtmlView::Text(text.push(ch)),
            HtmlView::Comment { content, full } => if full {
                HtmlView::Sequence(seq![self, HtmlView::Text(seq![ch])])
            } else {
                HtmlView::Comment { content: content.push(ch), full }
            },
            HtmlView::Document { .. } => HtmlView::Sequence(
                seq![self, HtmlView::Text(seq![ch])],
            ),
            HtmlView::Tag { tag, full, child } => if full is Opened {
                HtmlView::Tag { tag, full, child: Box::new(child.push_char(ch)) }
            } else {
                HtmlView::Sequence(seq![self, HtmlView::Text(seq![ch])])
            },
            HtmlView::Sequence(items) => if items.len() > 0 && items.last().is_pushable(true) {
                HtmlView::Sequence(
                    items.update(items.len() - 1, items.last().push_char(ch)),
                )
            } else {
                HtmlView::Sequence(items.push(HtmlView::Text(seq![ch])))
            },
        }
    }

    /// The tree after a fresh node is inserted at the attachment target.
    /// Not meaningful when [`Self::node_target_is_comment`] holds.
    pub open spec fn push_node(self, node: HtmlView) -> HtmlView
        decreases self,
    {
        match self {
            HtmlView::Empty => node,
            HtmlView::Text(_) => HtmlView::Sequence(seq![self, node]),
            HtmlView::Document { .. } => HtmlView::Sequence(seq![self, node]),
            HtmlView::Comment { .. } => self,
            HtmlView::Tag { tag, full, child } => if full is Opened {
                HtmlView::Tag { tag, full, child: Box::new(child.push_node(node)) }
            } else {
                HtmlView::Sequence(seq![self, node])
            },
            HtmlView::Sequence(items) => if items.len() > 0 && items.last().is_pushable(false) {
                HtmlView::Sequence(
                    items.update(items.len() - 1, items.last().push_node(node)),
                )
            } else {
                HtmlView::Sequence(items.push(node))
            },
        }
    }

    /// The tree after the innermost comment is terminated, paired with
    /// whether an open comment was found at the attachment target.
    pub open spec fn close_comment(self) -> (HtmlView, bool)
        decreases self,
    {
        match self {
            HtmlView::Comment { content, full } => if full {
                (self, false)
            } else {
                (HtmlView::Comment { content, full: true }, true)
            },
            HtmlView::Tag { tag, full, child } => if full is Opened {
                let (closed, found) = child.close_comment();
                (HtmlView::Tag { tag, full, child: Box::new(closed) }, found)
            } else {
                (self, false)
            },
            HtmlView::Sequence(items) => if items.len() > 0 {
                let (closed, found) = items.last().close_comment();
                (HtmlView::Sequence(items.update(items.len() - 1, closed)), found)
            } else {
                (self, false)
            },
            _ => (self, false),
        }
    }

    /// The name of the innermost tag that is still open along the active
    /// branch, if any: the only candidate a closing tag may match.
    pub open spec fn innermost_open(self) -> Option<Seq<char>>
        decreases self,
    {
        match self {
            HtmlView::Tag { tag, full, child } => if full is Opened {
                match child.innermost_open() {
                    Some(name) => Some(name),
                    None => Some(tag.name),
                }
            } else {
                None
            },
            HtmlView::Sequence(items) => if items.len() > 0 {
                items.last().innermost_open()
            } else {
                None
            },
            _ => None,
        }
    }

    /// The tree after a closing tag for `name` is resolved, paired with the
    /// outcome.  Only the innermost open tag is a candidate: a match closes
    /// it, a mismatch reports the open name, and with no open tag the search
    /// reports so.  On anything but success the tree is unchanged.
    pub open spec fn close_tag(self, name: Seq<char>) -> (HtmlView, ClosingStatusView)
        decreases self,
    {
        match self {
            HtmlView::Tag { tag, full, child } => if full is Opened {
                let (closed, status) = child.close_tag(name);
                match status {
                    ClosingStatusView::NoOpenTag => if tag.name == name {
                        (
                            HtmlView::Tag { tag, full: TagType::Closed, child },
                            ClosingStatusView::Success,
                        )
                    } else {
                        (self, ClosingStatusView::WrongName(tag.name))
                    },
                    _ => (HtmlView::Tag { tag, full, child: Box::new(closed) }, status),
                }
            } else {
                (self, ClosingStatusView::NoOpenTag)
            },
            HtmlView::Sequence(items) => if items.len() > 0 {
                let (closed, status) = items.last().close_tag(name);
                (HtmlView::Sequence(items.update(items.len() - 1, closed)), status)
            } else {
                (self, ClosingStatusView::NoOpenTag)
            },
            _ => (self, ClosingStatusView::NoOpenTag),
        }
    }

    /// The markup text this tree renders to.
    pub open spec fn render(self) -> Seq<char>
        decreases self,
    {
        match self {
            HtmlView::Empty => Seq::<char>::empty(),
            HtmlView::Text(text) => text,
            HtmlView::Comment { content, full } => "<!--"@ + content + if full {
                "-->"@
            } else {
                Seq::<char>::empty()
            },
            HtmlView::Document { name, attr } => match attr {
                Some(a) => "<!"@ + name + " "@ + a + ">"@,
                None => if name.len() == 0 {
                    "<!>"@
                } else {
                    "<!"@ + name + " >"@
                },
            },
            HtmlView::Tag { tag, full, child } => match full {
                TagType::Opened => "<"@ + tag.text() + ">"@ + child.render(),
                TagType::Closed => "<"@ + tag.text() + ">"@ + child.render() + "</"@ + tag.name
                    + ">"@,
                TagType::SelfClosing => "<"@ + tag.text() + " />"@,
            },
            HtmlView::Sequence(items) => render_seq(items),
        }
    }

    /// Structural well-formedness: a sequence always holds at least two
    /// nodes, never holds a sequence or an empty tree as an element, and a
    /// self-closing tag always has an empty child.
    pub open spec fn well_formed(self) -> bool
        decreases self,
    {
        match self {
            HtmlView::Tag { full, child, .. } => child.well_formed() && (full is SelfClosing
                ==> *child is Empty),
            HtmlView::Sequence(items) => items.len() >= 2 && forall|i: int|
                0 <= i < items.len() ==> (#[trigger] items[i]).well_formed()
                    && !(items[i] is Sequence) && !(items[i] is Empty),
            _ => true,
        }
    }
}

/// Resolving a closing tag mutates the tree only on success: a wrong name or
/// a fully closed tree leaves every node exactly as it was.
pub proof fn lemma_close_tag_unchanged(v: HtmlView, name: Seq<char>)
    ensures
        !(v.close_tag(name).1 is Success) ==> v.close_tag(name).0 == v,
    decreases v,
{
    match v {
        HtmlView::Tag { tag, full, child } => {
            if full is Opened {
                lemma_close_tag_unchanged(*child, name);
            }
        },
        HtmlView::Sequence(items) => {
            if items.len() > 0 {
                lemma_close_tag_unchanged(items.last(), name);
                if !(items.last().close_tag(name).1 is Success) {
                    assert(items.update(items.len() - 1, items.last().close_tag(name).0)
                        =~= items);
                }
            }
        },
        _ => {},
    }
}

/// The concatenation of the renderings of a run of sibling nodes, in order.
pub open spec fn render_seq(items: Seq<HtmlView>) -> Seq<char>
    decreases items,
{
    if items.len() == 0 {
        Seq::<char>::empty()
    } else {
        render_seq(items.drop_last()) + items.last().render()
    }
}

} // verus!
