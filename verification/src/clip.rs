//! Clipboard contents, and what is to be done with them.

use crate::text::starts_with;
use vstd::prelude::*;

verus! {

/// Clipboard content of one type.
#[verifier::ext_equal]
pub struct ItemView {
    pub mime: Seq<char>,
    pub bytes: Seq<u8>,
}

/// Clipboard content of one type.
#[derive(Debug)]
pub struct Item {
    pub mime: String,
    pub bytes: Vec<u8>,
}

impl View for Item {
    type V = ItemView;

    open spec fn view(&self) -> ItemView {
        ItemView { mime: self.mime@, bytes: self.bytes@ }
    }
}

impl DeepView for Item {
    type V = ItemView;

    open spec fn deep_view(&self) -> ItemView {
        self@
    }
}

impl Item {
    /// Content of a type.
    pub fn new(mime: &str, bytes: &[u8]) -> (res: Item)
        ensures
            res@ == item(mime@, bytes@),
    {
        Item { mime: mime.to_string(), bytes: crate::bytes::to_vec(bytes) }
    }

    /// Text as content of a type.
    pub fn text(mime: &str, text: &str) -> (res: Item)
        ensures
            res@ == text_item(mime@, text@),
    {
        Item { mime: mime.to_string(), bytes: text.as_bytes_vec() }
    }
}

/// Content of a type.
pub open spec fn item(mime: Seq<char>, bytes: Seq<u8>) -> ItemView {
    ItemView { mime, bytes }
}

/// Text as content of a type.
pub open spec fn text_item(mime: Seq<char>, text: Seq<char>) -> ItemView {
    ItemView { mime, bytes: vstd::utf8::encode_utf8(text) }
}

/// The clipboards that content goes to.
#[derive(Clone, Copy, Debug, PartialEq, Eq, Structural)]
pub enum Target {
    /// The clipboard alone.
    Regular,
    /// The clipboard and the primary selection.
    Both,
}

/// Plain text goes to both clipboards. Anything else goes to the clipboard alone:
/// files in the primary selection confuse file managers.
pub open spec fn target(items: Seq<ItemView>) -> Target {
    if forall|i: int| 0 <= i < items.len() ==> "text/plain"@.is_prefix_of(#[trigger] items[i].mime) {
        Target::Both
    } else {
        Target::Regular
    }
}

/// The clipboards that content goes to.
pub fn target_of(items: &Vec<Item>) -> (res: Target)
    ensures
        res == target(items.deep_view()),
{
    let ghost all = items.deep_view();
    let mut i: usize = 0;
    while i < items.len()
        invariant
            i <= items@.len(),
            all == items.deep_view(),
            all.len() == items@.len(),
            forall|j: int| 0 <= j < i ==> "text/plain"@.is_prefix_of(#[trigger] all[j].mime),
        decreases items@.len() - i,
    {
        assert(all[i as int].mime == items@[i as int].mime@);
        if !starts_with(items[i].mime.as_str(), "text/plain") {
            return Target::Regular;
        }
        i += 1;
    }
    Target::Both
}

/// One thing to do.
#[verifier::ext_equal]
pub enum ActionView {
    Copy(Seq<ItemView>),
    Record,
    Suppress(Seq<char>, Seq<char>, u64),
    Say(Seq<char>),
}

/// One thing to do.
#[derive(Debug)]
pub enum Action {
    /// Put the items on the clipboard.
    Copy(Vec<Item>),
    /// Note the message in the history of events.
    Record,
    /// Hold back a digest under a key for a number of milliseconds.
    Suppress(String, String, u64),
    /// Print a line.
    Say(String),
}

impl View for Action {
    type V = ActionView;

    open spec fn view(&self) -> ActionView {
        match self {
            Action::Copy(items) => ActionView::Copy(items.deep_view()),
            Action::Record => ActionView::Record,
            Action::Suppress(key, sha, ttl) => ActionView::Suppress(key@, sha@, *ttl),
            Action::Say(line) => ActionView::Say(line@),
        }
    }
}

impl DeepView for Action {
    type V = ActionView;

    open spec fn deep_view(&self) -> ActionView {
        self@
    }
}

/// Content that is plain text in every type goes to both clipboards; one other type among them
/// keeps it to the first.
pub proof fn law_where_content_goes(items: Seq<ItemView>, i: int)
    ensures
        0 <= i < items.len() && !"text/plain"@.is_prefix_of(items[i].mime) ==> target(items)
            == Target::Regular,
        (forall|k: int| 0 <= k < items.len() ==> "text/plain"@.is_prefix_of(#[trigger] items[k].mime))
            ==> target(items) == Target::Both,
{
}

/// An item holds the bytes that it is made of, and a text in UTF-8.
pub proof fn law_items_hold_what_they_are_given(mime: Seq<char>, bytes: Seq<u8>, text: Seq<char>)
    ensures
        item(mime, bytes).mime == mime,
        item(mime, bytes).bytes == bytes,
        text_item(mime, text).mime == mime,
        text_item(mime, text).bytes == vstd::utf8::encode_utf8(text),
{
}

} // verus!
