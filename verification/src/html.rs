//! The markup tree and its mutating operations.
//!
//! A driver owns one [`Html`] value, starts it at [`Html::Empty`], and feeds
//! it one structural event at a time.  Every operation locates the unique
//! insertion point by descending open tags and last siblings; no explicit
//! stack of open elements is kept.  Each operation's contract ties the new
//! tree to the ghost model in [`crate::model`].

use vstd::prelude::*;

use crate::model::{render_seq, HtmlView};
use crate::tag::{ClosingStatusView, Tag, TagClosingStatus, TagType};

verus! {

/// Markup tree built incrementally from structural events.
#[derive(Debug)]
#[allow(inconsistent_fields)]
pub enum Html {
    /// Comment block, e.g. `<!-- some comment -->`.
    Comment {
        /// Content of the comment.
        content: String,
        /// `true` iff the closing `-->` was found for this comment.
        full: bool,
    },
    /// Document declaration, e.g. `<!doctype html>`; always a leaf.
    Document {
        /// Name of the declaration, e.g. `doctype`.
        name: String,
        /// Attribute of the declaration, e.g. `html`.
        attr: Option<String>,
    },
    /// Empty tree; corresponds to an empty string.
    Empty,
    /// Tag with its closing state and everything between the opening and the
    /// closing tag.  The child is always empty if the tag is self-closing.
    Tag {
        /// Name and attributes of the tag.
        tag: Tag,
        /// Closing style: self-closing, still opened, or closed.
        full: TagType,
        /// Child of the tag.
        child: Box<Html>,
    },
    /// Raw text outside of a tag.
    Text(String),
    /// Two or more sibling nodes at the same nesting level.
    Sequence(Vec<Html>),
}

impl View for Html {
    type V = HtmlView;

    open spec fn view(&self) -> HtmlView {
        view_of(*self)
    }
}

/// The ghost model of a tree: the same shape with mathematical payloads.
pub open spec fn view_of(tree: Html) -> HtmlView
    decreases tree,
{
    match tree {
        Html::Comment { content, full } => HtmlView::Comment { content: content@, full },
        Html::Document { name, attr } => HtmlView::Document {
            name: name@,
            attr: match attr {
                Some(a) => Some(a@),
                None => None,
            },
        },
        Html::Empty => HtmlView::Empty,
        Html::Tag { tag, full, child } => HtmlView::Tag {
            tag: tag@,
            full,
            child: Box::new(view_of(*child)),
        },
        Html::Text(text) => HtmlView::Text(text@),
        Html::Sequence(items) => HtmlView::Sequence(view_seq(items@)),
    }
}

/// The ghost models of a run of sibling trees, element by element.
pub open spec fn view_seq(items: Seq<Html>) -> Seq<HtmlView>
    decreases items,
{
    if items.len() == 0 {
        Seq::<HtmlView>::empty()
    } else {
        view_seq(items.drop_last()).push(view_of(items.last()))
    }
}

/// The model of a run of siblings has one element for each tree, the model
/// of that tree.
pub broadcast proof fn lemma_view_seq(items: Seq<Html>)
    ensures
        (#[trigger] view_seq(items)).len() == items.len(),
        forall|i: int| 0 <= i < items.len() ==> view_seq(items)[i] == items[i]@,
    decreases items.len(),
{
    if items.len() > 0 {
        lemma_view_seq(items.drop_last());
    }
}

impl Default for Html {
    /// The empty tree.
    fn default() -> (r: Self)
        ensures
            r@ == HtmlView::Empty,
    {
        Html::Empty
    }
}

/// Relies on `String::push`: appends one character at the end of the string.
#[verifier::external_body]
fn push_char_str(s: &mut String, ch: char)
    ensures
        final(s)@ == old(s)@.push(ch),
{
    s.push(ch)
}

/// Relies on `<str as PartialEq>::eq`: string slices compare equal exactly
/// when their character contents are equal.
#[verifier::external_body]
fn str_eq(a: &str, b: &str) -> (r: bool)
    ensures
        r == (a@ == b@),
{
    a == b
}

impl Html {
    /// Boxes an empty tree.
    pub fn empty_box() -> (r: Box<Self>)
        ensures
            r@ == HtmlView::Empty,
    {
        Box::new(Html::Empty)
    }

    /// Creates a tree holding one character of raw text.
    pub fn from_char(ch: char) -> (r: Self)
        ensures
            r@ == HtmlView::Text(seq![ch]),
    {
        let mut text = String::new();
        push_char_str(&mut text, ch);
        proof {
            assert(Seq::<char>::empty().push(ch) =~= seq![ch]);
        }
        Html::Text(text)
    }

    /// Checks if the tree is empty.  Only the freshly-initialized tree is:
    /// every other shape holds at least one character of content.
    pub fn is_empty(&self) -> (r: bool)
        ensures
            r == (self@ is Empty),
    {
        matches!(self, Html::Empty)
    }

    /// Checks if the next datum may be pushed into this tree rather than
    /// beside it.  Text accepts more characters but no nodes.
    pub fn is_pushable(&self, is_char: bool) -> (r: bool)
        ensures
            r == self@.is_pushable(is_char),
    {
        match self {
            Html::Empty => true,
            Html::Sequence(_) => true,
            Html::Tag { full, .. } => full.is_open(),
            Html::Document { .. } => false,
            Html::Text(_) => is_char,
            Html::Comment { full, .. } => !*full,
        }
    }

    /// Replaces the tree by a two-element run of siblings: the prior tree
    /// and the new node.  Used whenever the attachment target cannot accept
    /// more content.
    fn promote(&mut self, node: Html)
        ensures
            final(self)@ == (HtmlView::Sequence(seq![old(self)@, node@])),
    {
        let ghost node_view = node@;
        let mut prior = Html::Empty;
        core::mem::swap(self, &mut prior);
        let mut items: Vec<Html> = Vec::new();
        items.push(prior);
        items.push(node);
        proof {
            lemma_view_seq(items@);
            assert(view_seq(items@) =~= seq![old(self)@, node_view]);
        }
        *self = Html::Sequence(items);
    }

    /// Checks if the active branch of the tree ends in a comment that is
    /// still open, i.e. whether the writer is currently inside a comment.
    pub fn is_comment(&self) -> (r: bool)
        ensures
            r == self@.in_comment(),
        decreases *self,
    {
        match self {
            Html::Comment { full, .. } => !*full,
            Html::Empty => false,
            Html::Text(_) => false,
            Html::Document { .. } => false,
            Html::Tag { full, child, .. } => full.is_open() && (&**child).is_comment(),
            Html::Sequence(items) => {
                proof {
                    lemma_view_seq(items@);
                }
                let n = items.len();
                if n == 0 {
                    false
                } else {
                    items[n - 1].is_comment()
                }
            },
        }
    }

    /// Pushes one character into the tree at the attachment target.
    pub fn push_char(&mut self, ch: char)
        ensures
            final(self)@ == old(self)@.push_char(ch),
        decreases *old(self),
    {
        match self {
            Html::Empty => {
                *self = Html::from_char(ch);
            },
            Html::Tag { full: TagType::Opened, child, .. } => {
                (&mut **child).push_char(ch);
            },
            Html::Document { .. } | Html::Tag { full: TagType::Closed | TagType::SelfClosing, .. } => {
                let node = Html::from_char(ch);
                self.promote(node);
            },
            Html::Text(text) => {
                push_char_str(text, ch);
            },
            Html::Sequence(items) => {
                let ghost items0 = items@;
                proof {
                    lemma_view_seq(items0);
                }
                let n = items.len();
                if n > 0 && items[n - 1].is_pushable(true) {
                    let last = &mut items[n - 1];
                    last.push_char(ch);
                    proof {
                        lemma_view_seq(items@);
                        assert(view_seq(items@) =~= view_seq(items0).update(
                            n - 1,
                            items0[n - 1]@.push_char(ch),
                        ));
                    }
                } else {
                    items.push(Html::from_char(ch));
                    proof {
                        lemma_view_seq(items@);
                        assert(view_seq(items@) =~= view_seq(items0).push(
                            HtmlView::Text(seq![ch]),
                        ));
                    }
                }
            },
            Html::Comment { content, full } => {
                if *full {
                    // The finished comment cannot take more content: start a
                    // new text sibling beside it.
                    let node = Html::from_char(ch);
                    self.promote(node);
                } else {
                    push_char_str(content, ch);
                }
            },
        }
    }

    /// Pushes a fresh node into the tree at the attachment target.  The
    /// tokenizer never inserts a node while a comment is the target, so that
    /// shape is excluded here.
    pub fn push_node(&mut self, node: Self)
        requires
            !old(self)@.node_target_is_comment(),
        ensures
            final(self)@ == old(self)@.push_node(node@),
        decreases *old(self),
    {
        match self {
            Html::Empty => {
                *self = node;
            },
            Html::Tag { full: TagType::Opened, child, .. } => {
                (&mut **child).push_node(node);
            },
            Html::Text(_)
            | Html::Document { .. }
            | Html::Tag { full: TagType::Closed | TagType::SelfClosing, .. } => {
                self.promote(node);
            },
            Html::Sequence(items) => {
                let ghost items0 = items@;
                let ghost node_view = node@;
                proof {
                    lemma_view_seq(items0);
                }
                let n = items.len();
                if n > 0 && items[n - 1].is_pushable(false) {
                    let last = &mut items[n - 1];
                    last.push_node(node);
                    proof {
                        lemma_view_seq(items@);
                        assert(view_seq(items@) =~= view_seq(items0).update(
                            n - 1,
                            items0[n - 1]@.push_node(node_view),
                        ));
                    }
                } else {
                    items.push(node);
                    proof {
                        lemma_view_seq(items@);
                        assert(view_seq(items@) =~= view_seq(items0).push(node_view));
                    }
                }
            },
            Html::Comment { .. } => {
                // Excluded by the precondition: a comment is never the
                // attachment target of a node insertion.
                proof {
                    assert(false);
                }
            },
        }
    }

    /// Pushes a fresh, still-open comment into the tree.
    pub fn push_comment(&mut self)
        requires
            !old(self)@.node_target_is_comment(),
        ensures
            final(self)@ == old(self)@.push_node(
                (HtmlView::Comment { content: Seq::<char>::empty(), full: false }),
            ),
    {
        self.push_node(Html::Comment { content: String::new(), full: false });
    }

    /// Pushes a tag into the tree: self-closing when `inline` holds, else
    /// opened with an empty child awaiting content.
    pub fn push_tag(&mut self, tag: Tag, inline: bool)
        requires
            !old(self)@.node_target_is_comment(),
        ensures
            final(self)@ == old(self)@.push_node(
                (HtmlView::Tag {
                    tag: tag@,
                    full: if inline {
                        TagType::SelfClosing
                    } else {
                        TagType::Opened
                    },
                    child: Box::new(HtmlView::Empty),
                }),
            ),
    {
        let full = if inline {
            TagType::SelfClosing
        } else {
            TagType::Opened
        };
        self.push_node(Html::Tag { tag, full, child: Html::empty_box() });
    }

    /// Terminates the innermost comment.  Returns whether a comment that was
    /// still open was found at the attachment target; a comment already
    /// terminated, or any other shape there, reports failure and leaves the
    /// tree untouched.
    pub fn close_comment(&mut self) -> (r: bool)
        ensures
            final(self)@ == old(self)@.close_comment().0,
            r == old(self)@.close_comment().1,
        decreases *old(self),
    {
        match self {
            Html::Comment { full, .. } => {
                if *full {
                    false
                } else {
                    *full = true;
                    true
                }
            },
            Html::Text(_) | Html::Empty | Html::Document { .. } => false,
            Html::Tag { full, child, .. } => full.is_open() && (&mut **child).close_comment(),
            Html::Sequence(items) => {
                let ghost items0 = items@;
                proof {
                    lemma_view_seq(items0);
                }
                let n = items.len();
                if n == 0 {
                    false
                } else {
                    let last = &mut items[n - 1];
                    let r = last.close_comment();
                    proof {
                        lemma_view_seq(items@);
                        assert(view_seq(items@) =~= view_seq(items0).update(
                            n - 1,
                            items0[n - 1]@.close_comment().0,
                        ));
                    }
                    r
                }
            },
        }
    }

    /// Resolves a closing tag against the tree: finds the innermost tag that
    /// is still open, closes it if its name matches, and otherwise reports
    /// which mismatch occurred without touching the tree.
    pub fn close_tag_aux(&mut self, name: &str) -> (r: TagClosingStatus)
        ensures
            final(self)@ == old(self)@.close_tag(name@).0,
            r@ == old(self)@.close_tag(name@).1,
        decreases *old(self),
    {
        if let Html::Tag { tag, full, child } = self {
            if full.is_open() {
                let status = (&mut **child).close_tag_aux(name);
                match status {
                    TagClosingStatus::NoOpenTag => {
                        proof {
                            crate::model::lemma_close_tag_unchanged(
                                *(old(self)@->Tag_child),
                                name@,
                            );
                        }
                        if str_eq(tag.name.as_str(), name) {
                            *full = TagType::Closed;
                            TagClosingStatus::Success
                        } else {
                            TagClosingStatus::WrongName(tag.name.clone())
                        }
                    },
                    _ => status,
                }
            } else {
                TagClosingStatus::NoOpenTag
            }
        } else if let Html::Sequence(items) = self {
            let ghost items0 = items@;
            proof {
                lemma_view_seq(items0);
            }
            let n = items.len();
            if n == 0 {
                TagClosingStatus::NoOpenTag
            } else {
                let last = &mut items[n - 1];
                let status = last.close_tag_aux(name);
                proof {
                    lemma_view_seq(items@);
                    assert(view_seq(items@) =~= view_seq(items0).update(
                        n - 1,
                        items0[n - 1]@.close_tag(name@).0,
                    ));
                }
                status
            }
        } else {
            TagClosingStatus::NoOpenTag
        }
    }

    /// Closes the last opened tag, the one closest to the leaves.  On a name
    /// mismatch or with no open tag the tree is unchanged and the error
    /// names the offending closing tag and, for a mismatch, the tag that is
    /// actually open.
    pub fn close_tag(&mut self, name: &str) -> (r: Result<(), String>)
        ensures
            final(self)@ == old(self)@.close_tag(name@).0,
            (match old(self)@.close_tag(name@).1 {
                ClosingStatusView::Success => r is Ok,
                ClosingStatusView::NoOpenTag => r matches Err(e) && e@
                    == "Invalid closing tag: Found closing tag for '"@ + name@
                    + "' but all tags are already closed."@,
                ClosingStatusView::WrongName(expected) => r matches Err(e) && e@
                    == "Invalid closing tag: Found closing tag for '"@ + name@ + "' but '"@
                    + expected + "' is still open."@,
            }),
    {
        match self.close_tag_aux(name) {
            TagClosingStatus::Success => Ok(()),
            TagClosingStatus::NoOpenTag => {
                let mut msg = "Invalid closing tag: Found closing tag for '".to_owned();
                msg.append(name);
                msg.append("' but all tags are already closed.");
                Err(msg)
            },
            TagClosingStatus::WrongName(expected) => {
                let mut msg = "Invalid closing tag: Found closing tag for '".to_owned();
                msg.append(name);
                msg.append("' but '");
                msg.append(expected.as_str());
                msg.append("' is still open.");
                Err(msg)
            },
        }
    }

    /// Renders the tree back to markup text.
    pub fn render(&self) -> (r: String)
        ensures
            r@ == self@.render(),
        decreases *self,
    {
        match self {
            Html::Empty => String::new(),
            Html::Text(text) => text.clone(),
            Html::Comment { content, full } => {
                let mut r = "<!--".to_owned();
                r.append(content.as_str());
                if *full {
                    r.append("-->");
                } else {
                    proof {
                        assert(("<!--"@ + content@) + Seq::<char>::empty()
                            =~= "<!--"@ + content@);
                    }
                }
                r
            },
            Html::Document { name, attr } => {
                match attr {
                    Some(a) => {
                        let mut r = "<!".to_owned();
                        r.append(name.as_str());
                        r.append(" ");
                        r.append(a.as_str());
                        r.append(">");
                        r
                    },
                    None => {
                        if name.as_str().is_empty() {
                            "<!>".to_owned()
                        } else {
                            let mut r = "<!".to_owned();
                            r.append(name.as_str());
                            r.append(" >");
                            r
                        }
                    },
                }
            },
            Html::Tag { tag, full, child } => {
                let mut r = "<".to_owned();
                r.append(tag.render().as_str());
                match full {
                    TagType::Opened => {
                        r.append(">");
                        r.append((&**child).render().as_str());
                    },
                    TagType::Closed => {
                        r.append(">");
                        r.append((&**child).render().as_str());
                        r.append("</");
                        r.append(tag.name.as_str());
                        r.append(">");
                    },
                    TagType::SelfClosing => {
                        r.append(" />");
                    },
                }
                r
            },
            Html::Sequence(items) => {
                proof {
                    lemma_view_seq(items@);
                }
                let mut r = String::new();
                let mut i: usize = 0;
                proof {
                    assert(view_seq(items@).subrange(0, 0) =~= Seq::<HtmlView>::empty());
                }
                #[verifier::loop_isolation(false)]
                while i < items.len()
                    invariant
                        i <= items@.len(),
                        r@ == render_seq(view_seq(items@).subrange(0, i as int)),
                    decreases items@.len() - i,
                {
                    let piece = items[i].render();
                    r.append(piece.as_str());
                    proof {
                        let vs = view_seq(items@);
                        assert(vs.subrange(0, i + 1).drop_last() =~= vs.subrange(0, i as int));
                        assert(vs.subrange(0, i + 1).last() == vs[i as int]);
                    }
                    i = i + 1;
                }
                proof {
                    assert(view_seq(items@).subrange(0, items@.len() as int)
                        =~= view_seq(items@));
                }
                r
            },
        }
    }
}

} // verus!
