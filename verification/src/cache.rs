//! The pages that are kept in memory.

use vstd::hash_map::StringHashMap;
use vstd::prelude::*;

verus! {

/// How many bytes a number of pages hold together.
pub open spec fn total(pages: Map<Seq<char>, Seq<u8>>) -> nat
    decreases pages.dom().len(),
    when pages.dom().finite()
{
    if pages.dom().len() == 0 {
        0
    } else {
        let path = pages.dom().choose();
        total(pages.remove(path)) + pages[path].len()
    }
}

/// Without pages the total is nothing.
pub proof fn lemma_total_empty()
    ensures
        total(Map::empty()) == 0,
{
}

/// Each page adds its length to the total.
pub proof fn lemma_total_remove(pages: Map<Seq<char>, Seq<u8>>, path: Seq<char>)
    requires
        pages.dom().finite(),
        pages.contains_key(path),
    ensures
        total(pages) == total(pages.remove(path)) + pages[path].len(),
    decreases pages.dom().len(),
{
    let first = pages.dom().choose();
    assert(pages.dom().contains(path));
    if first != path {
        lemma_total_remove(pages.remove(first), path);
        lemma_total_remove(pages.remove(path), first);
        assert(pages.remove(first).remove(path) =~= pages.remove(path).remove(first));
    }
}

/// The total once a page has taken the place of what was kept for its path.
pub proof fn lemma_total_insert(
    pages: Map<Seq<char>, Seq<u8>>,
    path: Seq<char>,
    page: Seq<u8>,
)
    requires
        pages.dom().finite(),
    ensures
        pages.insert(path, page).dom().finite(),
        total(pages.insert(path, page)) == total(pages.remove(path)) + page.len(),
{
    assert(pages.insert(path, page).remove(path) =~= pages.remove(path));
    lemma_total_remove(pages.insert(path, page), path);
}

/// Pages by the path of their file, and how many bytes they hold together.
pub struct PageCache {
    pages: StringHashMap<Vec<u8>>,
    total: usize,
}

impl View for PageCache {
    type V = Map<Seq<char>, Seq<u8>>;

    closed spec fn view(&self) -> Map<Seq<char>, Seq<u8>> {
        self.pages@.map_values(|page: Vec<u8>| page@)
    }
}

impl PageCache {
    /// The number of bytes is that of the pages.
    #[verifier::type_invariant]
    spec fn adds_up(&self) -> bool {
        self@.dom().finite() && self.total == total(self@)
    }

    /// A cache without pages.
    pub fn new() -> (cache: PageCache)
        ensures
            cache@ == Map::<Seq<char>, Seq<u8>>::empty(),
    {
        let pages: StringHashMap<Vec<u8>> = StringHashMap::new();
        assert(pages@.map_values(|page: Vec<u8>| page@) =~= Map::<Seq<char>, Seq<u8>>::empty());
        PageCache { pages, total: 0 }
    }

    /// Whether the page of a path is kept.
    pub fn contains(&self, path: &str) -> (yes: bool)
        ensures
            yes == self@.contains_key(path@),
    {
        self.pages.contains_key(path)
    }

    /// The page of a path, if it is kept.
    pub fn find(&self, path: &str) -> (page: Option<&Vec<u8>>)
        ensures
            match page {
                Some(p) => self@.contains_key(path@) && p@ == self@[path@],
                None => !self@.contains_key(path@),
            },
    {
        self.pages.get(path)
    }

    /// How many bytes the pages of all other paths hold together.
    pub fn others(&self, path: &str) -> (n: usize)
        ensures
            n == total(self@.remove(path@)),
    {
        proof {
            use_type_invariant(self);
        }
        match self.pages.get(path) {
            Some(page) => {
                proof {
                    lemma_total_remove(self@, path@);
                }
                self.total - page.len()
            },
            None => {
                assert(self@.remove(path@) =~= self@);
                self.total
            },
        }
    }

    /// Keeps a page, in place of what was kept for its path before.
    pub fn with_page(self, path: String, page: Vec<u8>) -> (cache: PageCache)
        requires
            total(self@.remove(path@)) + page@.len() <= usize::MAX,
        ensures
            cache@ == self@.insert(path@, page@),
    {
        let total: usize = self.others(path.as_str()) + page.len();
        proof {
            use_type_invariant(&self);
            lemma_total_insert(self@, path@, page@);
        }
        let ghost before = self@;
        let PageCache { mut pages, total: _ } = self;
        pages.insert(path, page);
        assert(pages@.map_values(|page: Vec<u8>| page@) =~= before.insert(path@, page@));
        PageCache { pages, total }
    }
}

} // verus!
