//! A tap that hands over what it was made with.
use vstd::prelude::*;

use crate::tap::{changed_items, select_changed, FetchContext, FetchResult, FetchResultView,
    SourceItem, SourceItemView};

verus! {

/// A tap that hands over what it was made with.
#[derive(Debug)]
pub struct MockTap {
    pub name: String,
    pub items: Vec<SourceItem>,
    pub deletions: Vec<String>,
    pub cursor: Option<String>,
}

/// What a [`MockTap`] holds.
#[verifier::ext_equal]
pub struct MockTapView {
    pub name: Seq<char>,
    pub items: Seq<SourceItemView>,
    pub deletions: Seq<Seq<char>>,
    pub cursor: Option<Seq<char>>,
}

impl DeepView for MockTap {
    type V = MockTapView;

    open spec fn deep_view(&self) -> MockTapView {
        MockTapView {
            name: self.name@,
            items: self.items.deep_view(),
            deletions: self.deletions.deep_view(),
            cursor: self.cursor.deep_view(),
        }
    }
}

impl Clone for MockTap {
    fn clone(&self) -> (r: Self)
        ensures
            r.deep_view() == self.deep_view(),
    {
        MockTap {
            name: self.name.clone(),
            items: self.items.clone(),
            deletions: self.deletions.clone(),
            cursor: self.cursor.clone(),
        }
    }
}

impl MockTap {
    /// A tap with these items.
    pub fn new(name: &str, items: Vec<SourceItem>) -> (r: MockTap)
        ensures
            r.deep_view() == (MockTapView {
                name: name@,
                items: items.deep_view(),
                deletions: Seq::<Seq<char>>::empty(),
                cursor: None,
            }),
    {
        MockTap::with_deletions(name, items, Vec::new())
    }

    /// A tap with these items and deletions.
    pub fn with_deletions(
        name: &str,
        items: Vec<SourceItem>,
        deletions: Vec<String>,
    ) -> (r: MockTap)
        ensures
            r.deep_view() == (MockTapView {
                name: name@,
                items: items.deep_view(),
                deletions: deletions.deep_view(),
                cursor: None,
            }),
    {
        MockTap { name: name.to_string(), items, deletions, cursor: None }
    }

    /// A tap with these items and a cursor.
    pub fn with_cursor(name: &str, items: Vec<SourceItem>, cursor: String) -> (r: MockTap)
        ensures
            r.deep_view() == (MockTapView {
                name: name@,
                items: items.deep_view(),
                deletions: Seq::<Seq<char>>::empty(),
                cursor: Some(cursor@),
            }),
    {
        let r = MockTap {
            name: name.to_string(),
            items,
            deletions: Vec::new(),
            cursor: Some(cursor),
        };
        assert(r.deletions.deep_view() =~= Seq::<Seq<char>>::empty());
        r
    }

    /// The name of the tap.
    pub fn name(&self) -> (r: &str)
        ensures
            r@ == self.name@,
    {
        self.name.as_str()
    }

    /// Hands over the items that are new or changed, all of them on a full run.
    pub fn fetch(&self, ctx: &FetchContext) -> (r: FetchResult)
        ensures
            r.deep_view() == (FetchResultView {
                items: changed_items(self.items.deep_view(), ctx.deep_view()),
                deletions: self.deletions.deep_view(),
                cursor: self.cursor.deep_view(),
            }),
    {
        FetchResult {
            items: select_changed(&self.items, ctx),
            deletions: self.deletions.clone(),
            cursor: self.cursor.clone(),
        }
    }
}

} // verus!
