//! The document's bookmark tree: built once from the outline, addressed by
//! index paths, expanded and collapsed, and searched by page number.
//!
//! All bookmarks of a document live in one list, in the order in which the
//! outline lists them (a parent before its children, a subtree before the next
//! sibling). A bookmark names its children and its parent by their position in
//! that list, and carries its own index path from the roots.
use vstd::prelude::*;
use crate::decode::{decode_str_to_utf8, decoded, guessed_label, known_label};
use crate::outline::{built_from, describes, entries_from, linked_while_building, new_node};

verus! {

/// An object reference of the document: object number and generation.
pub type ObjectId = (u32, u16);

/// A titled outline entry that points at a page.
pub struct Destination {
    /// The raw bytes of the title, when the title is a string.
    pub title: Option<Vec<u8>>,
    /// The page object that the entry points at, when it is a reference.
    pub page: Option<ObjectId>,
}

/// One entry of a document outline: a destination, or the nested entries that
/// belong to the destination listed just before them.
pub enum Outline {
    Destination(Destination),
    SubOutlines(Vec<Outline>),
}

/// The path of a bookmark: the child index taken at each level, from the roots.
#[derive(Debug)]
pub struct BookMarkIndex {
    pub inner: Vec<usize>,
}

impl View for BookMarkIndex {
    type V = Seq<usize>;

    open spec fn view(&self) -> Seq<usize> {
        self.inner@
    }
}

/// Size and position of the page preview, in pixels and cells.
#[derive(Debug, Clone, Copy, PartialEq, Eq)]
pub struct PdfSize {
    pub x: u16,
    pub y: u16,
    pub width: i32,
    pub height: i32,
}

/// One bookmark: a named outline entry and its place in the tree.
#[derive(Debug)]
pub struct BookMark {
    /// Title shown in the table of contents.
    pub name: String,
    /// Page the bookmark points at (1-based; 0 when unresolved).
    pub num: u32,
    /// Positions of the children in the bookmark list, in outline order.
    pub sub: Vec<usize>,
    /// Depth in the tree; roots are at 0.
    pub hierarchy: u32,
    /// Whether the bookmark is listed.
    pub show: bool,
    /// Whether the bookmark's children are listed.
    pub sub_show: bool,
    /// Position of the parent in the bookmark list; `None` for a root.
    pub parent: Option<usize>,
    /// The bookmark's own path from the roots.
    pub index: BookMarkIndex,
}

/// A bookmark `i` fits the list it is in: its parent comes before it and is
/// one level up (a root is at level 0 and always listed), the bookmarks
/// between its parent and itself are all deeper than the parent (so the parent
/// is the nearest earlier bookmark one level up), its children are listed in
/// the order they appear in the list (outline order), and each child comes
/// after it, names it as parent, and has its path extended by the child's rank.
pub open spec fn node_wf(nodes: Seq<BookMark>, i: int) -> bool {
    let b = nodes[i];
    &&& match b.parent {
        None => b.hierarchy == 0 && b.show,
        Some(p) => p < i && b.hierarchy == nodes[p as int].hierarchy + 1,
    }
    &&& b.parent matches Some(p) ==> forall|j: int| p < j < i ==> #[trigger] nodes[j].hierarchy > nodes[p as int].hierarchy
    &&& forall|a: int, c: int| 0 <= a < c < b.sub@.len() ==> b.sub@[a] < b.sub@[c]
    &&& forall|k: int|
        0 <= k < b.sub@.len() ==> i < #[trigger] b.sub@[k] < nodes.len() && nodes[b.sub@[k] as int].parent
            == Some(i as usize) && nodes[b.sub@[k] as int].index@ == b.index@.push(k as usize)
}

/// The bookmark list and its roots form a well-formed forest, the roots in
/// list (outline) order.
pub open spec fn tree_wf(nodes: Seq<BookMark>, roots: Seq<usize>) -> bool {
    &&& forall|i: int| 0 <= i < nodes.len() ==> #[trigger] node_wf(nodes, i)
    &&& forall|i: int| 0 <= i < nodes.len() ==> #[trigger] node_linked(nodes, roots, i)
    &&& forall|a: int, c: int| 0 <= a < c < roots.len() ==> roots[a] < roots[c]
    &&& forall|k: int|
        0 <= k < roots.len() ==> #[trigger] roots[k] < nodes.len() && nodes[roots[k] as int].parent is None
            && nodes[roots[k] as int].index@ == seq![k as usize]
}

/// Bookmark `i` is where the last step of its path says: that child of its
/// parent, or that root.
pub open spec fn node_linked(nodes: Seq<BookMark>, roots: Seq<usize>, i: int) -> bool {
    let path = nodes[i].index@;
    match nodes[i].parent {
        None => path.len() == 1 && path[0] < roots.len() && roots[path[0] as int] == i,
        Some(p) => child_linked(nodes, i),
    }
}

/// Bookmark `i` has a parent, and is the child of it that the last step of its
/// path names.
pub open spec fn child_linked(nodes: Seq<BookMark>, i: int) -> bool {
    let path = nodes[i].index@;
    match nodes[i].parent {
        None => false,
        Some(p) => path.len() >= 1 && path.last() < nodes[p as int].sub@.len() && nodes[p as int].sub@[path.last() as int]
            == i,
    }
}

/// The page number of `id`: one more than the position of its first occurrence
/// among the document's pages from position `k` on, or 0 when it is not there.
pub open spec fn page_number_from(pages: Seq<ObjectId>, id: ObjectId, k: int) -> int
    decreases pages.len() - k,
{
    if k < 0 || k >= pages.len() {
        0
    } else if pages[k] == id {
        k + 1
    } else {
        page_number_from(pages, id, k + 1)
    }
}

/// The page that a destination points at: 0 when it points at no page object
/// of the document.
pub open spec fn destination_page(pages: Seq<ObjectId>, page: Option<ObjectId>) -> int {
    match page {
        Some(id) => page_number_from(pages, id, 0),
        None => 0,
    }
}

/// The title shown for raw title bytes: their decoding, or `unknown` when
/// there are none or they do not decode.
pub open spec fn title_text(title: Option<Seq<u8>>) -> Seq<char> {
    match title {
        Some(bytes) => if known_label(guessed_label(bytes)) && !decoded(guessed_label(bytes), bytes).1 {
            decoded(guessed_label(bytes), bytes).0
        } else {
            unknown_title()
        },
        None => unknown_title(),
    }
}

pub open spec fn unknown_title() -> Seq<char> {
    seq!['u', 'n', 'k', 'n', 'o', 'w', 'n']
}

impl BookMark {
    pub fn name(self, name: String) -> (r: Self)
        ensures
            r == (BookMark { name, ..self }),
    {
        BookMark { name, ..self }
    }

    pub fn get_name(&self) -> (r: &str)
        ensures
            r@ == self.name@,
    {
        self.name.as_str()
    }

    pub fn num(self, num: u32) -> (r: Self)
        ensures
            r == (BookMark { num, ..self }),
    {
        BookMark { num, ..self }
    }

    pub fn get_num(&self) -> (r: u32)
        ensures
            r == self.num,
    {
        self.num
    }

    pub fn get_sub(&self) -> (r: &Vec<usize>)
        ensures
            r == &self.sub,
    {
        &self.sub
    }

    pub fn get_sub_mut(&mut self) -> (r: &mut Vec<usize>)
        ensures
            *r == old(self).sub,
            *final(self) == (BookMark { sub: *final(r), ..*old(self) }),
    {
        &mut self.sub
    }

    pub fn hierarchy(self, hierarchy: u32) -> (r: Self)
        ensures
            r == (BookMark { hierarchy, ..self }),
    {
        BookMark { hierarchy, ..self }
    }

    pub fn get_hierarchy(&self) -> (r: u32)
        ensures
            r == self.hierarchy,
    {
        self.hierarchy
    }

    pub fn show(self, show: bool) -> (r: Self)
        ensures
            r == (BookMark { show, ..self }),
    {
        BookMark { show, ..self }
    }

    pub fn is_show(&self) -> (r: bool)
        ensures
            r == self.show,
    {
        self.show
    }

    pub fn is_sub_show(&self) -> (r: bool)
        ensures
            r == self.sub_show,
    {
        self.sub_show
    }
}

impl PdfSize {
    pub fn new(width: i32, height: i32, x: u16, y: u16) -> (r: Self)
        ensures
            r == (PdfSize { x, y, width, height }),
    {
        PdfSize { x, y, width, height }
    }

    pub fn width(&self) -> (r: i32)
        ensures
            r == self.width,
    {
        self.width
    }

    pub fn height(&self) -> (r: i32)
        ensures
            r == self.height,
    {
        self.height
    }

    pub fn x(&self) -> (r: u16)
        ensures
            r == self.x,
    {
        self.x
    }

    pub fn y(&self) -> (r: u16)
        ensures
            r == self.y,
    {
        self.y
    }

    /// Moves the preview to the top-left corner of the area it is drawn in.
    pub fn update(&mut self, x: u16, y: u16)
        ensures
            *final(self) == (PdfSize { x, y, ..*old(self) }),
    {
        self.x = x;
        self.y = y;
    }
}

impl BookMarkIndex {
    pub fn from(value: Vec<usize>) -> (r: Self)
        ensures
            r@ == value@,
    {
        BookMarkIndex { inner: value }
    }

    /// The path of the parent; a root's path is its own parent.
    pub fn parent(&self) -> (r: BookMarkIndex)
        ensures
            self@.len() > 1 ==> r@ == self@.drop_last(),
            self@.len() <= 1 ==> r@ == self@,
    {
        let n = self.inner.len();
        let keep: usize = if n > 1 {
            n - 1
        } else {
            n
        };
        let mut inner: Vec<usize> = Vec::new();
        let mut i: usize = 0;
        while i < keep
            invariant
                keep <= n == self.inner@.len(),
                i <= keep,
                inner@ == self.inner@.take(i as int),
            decreases keep - i,
        {
            inner.push(self.inner[i]);
            i += 1;
        }
        BookMarkIndex { inner }
    }

    pub fn len(&self) -> (r: usize)
        ensures
            r == self@.len(),
    {
        self.inner.len()
    }

    /// The child index taken at level `i`.
    pub fn index(&self, i: usize) -> (r: usize)
        requires
            i < self@.len(),
        ensures
            r == self@[i as int],
    {
        self.inner[i]
    }

    pub fn clone_index(&self) -> (r: BookMarkIndex)
        ensures
            r@ == self@,
    {
        let mut inner: Vec<usize> = Vec::new();
        let mut i: usize = 0;
        while i < self.inner.len()
            invariant
                i <= self.inner@.len(),
                inner@ == self.inner@.take(i as int),
            decreases self.inner@.len() - i,
        {
            inner.push(self.inner[i]);
            i += 1;
        }
        BookMarkIndex { inner }
    }
}

/// The page number of `id` among the document's pages in document order
/// (numbered from 1), or 0 when it is none of them.
pub fn page_number(pages: &Vec<ObjectId>, id: ObjectId) -> (r: u32)
    requires
        pages@.len() < u32::MAX,
    ensures
        r == page_number_from(pages@, id, 0),
{
    let mut k: usize = 0;
    while k < pages.len()
        invariant
            k <= pages@.len() < u32::MAX,
            page_number_from(pages@, id, 0) == page_number_from(pages@, id, k as int),
        decreases pages@.len() - k,
    {
        if pages[k].0 == id.0 && pages[k].1 == id.1 {
            return (k + 1) as u32;
        }
        k += 1;
    }
    0
}

/// The title to show for raw title bytes.
pub fn title_of(title: &Option<Vec<u8>>) -> (r: String)
    ensures
        r@ == title_text(
            match title {
                Some(b) => Some(b@),
                None => None,
            },
        ),
{
    let decoded = match title {
        Some(bytes) => decode_str_to_utf8(bytes.as_slice()),
        None => Err(crate::decode::DecodeError),
    };
    match decoded {
        Ok(text) => text,
        Err(_) => {
            proof {
                reveal_strlit("unknown");
            }
            String::from_str("unknown")
        },
    }
}

/// The positions of the leaves (bookmarks without children) among the first
/// `n` bookmarks, in list order.
pub open spec fn leaf_ids(nodes: Seq<BookMark>, n: int) -> Seq<usize>
    decreases n,
{
    if n <= 0 {
        seq![]
    } else if nodes[n - 1].sub@.len() == 0 {
        leaf_ids(nodes, n - 1).push((n - 1) as usize)
    } else {
        leaf_ids(nodes, n - 1)
    }
}

/// A document's pages and bookmarks.
pub struct PdfHandler {
    /// The page objects in document order; page `k + 1` is `page_map[k]`.
    pub page_map: Vec<ObjectId>,
    /// Every bookmark, in outline order.
    pub book_marks: Vec<BookMark>,
    /// Positions of the top-level bookmarks.
    pub roots: Vec<usize>,
    /// Positions of the bookmarks without children, in outline order.
    pub book_marks_pages: Vec<usize>,
    pub pdf_path: String,
    pub page_nums: usize,
    pub title: String,
}

impl PdfHandler {
    pub open spec fn wf(&self) -> bool {
        &&& tree_wf(self.book_marks@, self.roots@)
        &&& self.book_marks_pages@ == leaf_ids(self.book_marks@, self.book_marks@.len() as int)
        &&& self.page_nums == self.page_map@.len()
        &&& self.page_map@.len() < u32::MAX
    }

    /// Reads a document's pages and outline into bookmarks. The title is the
    /// file stem of `path`; `None` when `path` has no file name.
    pub fn new(path: &str, page_map: Vec<ObjectId>, outlines: &Option<Vec<Outline>>) -> (r: Option<PdfHandler>)
        requires
            page_map@.len() < u32::MAX,
        ensures
            r is None <==> crate::text::path_stem(path@) is None,
            r matches Some(h) ==> {
                &&& h.wf()
                &&& h.title@ == crate::text::path_stem(path@)->0
                &&& h.pdf_path@ == path@
                &&& h.page_map@ == page_map@
                &&& outlines is None ==> h.book_marks@.len() == 0
                &&& outlines matches Some(list) ==> built_from(h, list@)
                &&& forall|i: int| 0 <= i < h.book_marks@.len() ==> new_node(#[trigger] h.book_marks@[i], 0)
            },
    {
        let title = match crate::text::file_stem(path) {
            Some(t) => t,
            None => {
                return None;
            },
        };
        let page_nums = page_map.len();
        let mut handler = PdfHandler {
            page_map,
            book_marks: Vec::new(),
            roots: Vec::new(),
            book_marks_pages: Vec::new(),
            pdf_path: String::from_str(path),
            page_nums,
            title,
        };
        handler.parse_book_marks(outlines);
        Some(handler)
    }

    /// Builds the bookmarks and the leaf list from the outline.
    fn parse_book_marks(&mut self, outlines: &Option<Vec<Outline>>)
        requires
            old(self).page_map@.len() < u32::MAX,
            old(self).page_nums == old(self).page_map@.len(),
        ensures
            final(self).wf(),
            final(self).title == old(self).title,
            final(self).pdf_path == old(self).pdf_path,
            final(self).page_map == old(self).page_map,
            outlines is None ==> final(self).book_marks@.len() == 0,
            outlines matches Some(list) ==> built_from(*final(self), list@),
            forall|i: int| 0 <= i < final(self).book_marks@.len() ==> new_node(#[trigger] final(self).book_marks@[i], 0),
    {
        let mut book_marks: Vec<BookMark> = Vec::new();
        let roots = match outlines {
            Some(list) => {
                let top = BookMarkIndex { inner: Vec::new() };
                let roots = self.parse_outlines(list, &mut book_marks, 0, None, &top);
                proof {
                    assert forall|i: int| 0 <= i < book_marks@.len() implies #[trigger] node_linked(
                        book_marks@,
                        roots@,
                        i,
                    ) by {
                        assert(linked_while_building(book_marks@, None, roots@, i));
                        if book_marks@[i].parent is None {
                            let k = book_marks@[i].index@.last();
                            assert(roots@[k as int] == i);
                            assert(book_marks@[i].index@ =~= seq![k]);
                        }
                    }
                    let entries = entries_from(list@, 0, 0);
                    assert forall|i: int| 0 <= i < book_marks@.len() implies describes(
                        #[trigger] book_marks@[i],
                        entries[i],
                        self.page_map@,
                    ) by {
                        assert(book_marks@[0 + i] == book_marks@[i]);
                    }
                }
                roots
            },
            None => Vec::new(),
        };
        let leaves = map_book_marks_pages(&book_marks);
        self.book_marks = book_marks;
        self.roots = roots;
        self.book_marks_pages = leaves;
    }

    pub fn get_book_marks(&self) -> (r: &Vec<BookMark>)
        ensures
            r == &self.book_marks,
    {
        &self.book_marks
    }

    pub fn get_pdf_path(&self) -> (r: &str)
        ensures
            r@ == self.pdf_path@,
    {
        self.pdf_path.as_str()
    }

    pub fn get_page_nums(&self) -> (r: usize)
        ensures
            r == self.page_nums,
    {
        self.page_nums
    }

    pub fn get_title(&self) -> (r: &String)
        ensures
            r == &self.title,
    {
        &self.title
    }
}

pub(crate) proof fn lemma_leaf_ids_facts(nodes: Seq<BookMark>, n: int)
    requires
        0 <= n <= nodes.len() <= usize::MAX,
    ensures
        forall|j: int| 0 <= j < leaf_ids(nodes, n).len() ==> #[trigger] leaf_ids(nodes, n)[j] < n,
        forall|a: int, b: int|
            0 <= a < b < leaf_ids(nodes, n).len() ==> leaf_ids(nodes, n)[a] < leaf_ids(nodes, n)[b],
    decreases n,
{
    if n > 0 {
        lemma_leaf_ids_facts(nodes, n - 1);
        let prev = leaf_ids(nodes, n - 1);
        if nodes[n - 1].sub@.len() == 0 {
            let cur = leaf_ids(nodes, n);
            assert(cur == prev.push((n - 1) as usize));
            assert forall|a: int, b: int| 0 <= a < b < cur.len() implies cur[a] < cur[b] by {
                assert(cur[a] == prev[a]);
                if b == cur.len() - 1 {
                    assert(prev[a] < n - 1);
                } else {
                    assert(cur[b] == prev[b]);
                    assert(prev[a] < prev[b]);
                }
            }
        } else {
            assert(leaf_ids(nodes, n) == prev);
        }
    }
}

/// In a well-formed handler every bookmark sits one level below its parent,
/// and the top-level bookmarks sit at level 0.
pub proof fn lemma_hierarchy_levels(h: PdfHandler)
    requires
        h.wf(),
    ensures
        forall|i: int|
            0 <= i < h.book_marks@.len() && (#[trigger] h.book_marks@[i]).parent is None ==> h.book_marks@[i].hierarchy
                == 0,
        forall|i: int|
            0 <= i < h.book_marks@.len() && (#[trigger] h.book_marks@[i]).parent is Some ==> h.book_marks@[i].hierarchy
                == h.book_marks@[h.book_marks@[i].parent->0 as int].hierarchy + 1,
{
    assert forall|i: int| 0 <= i < h.book_marks@.len() implies {
        &&& (#[trigger] h.book_marks@[i]).parent is None ==> h.book_marks@[i].hierarchy == 0
        &&& h.book_marks@[i].parent is Some ==> h.book_marks@[i].hierarchy
            == h.book_marks@[h.book_marks@[i].parent->0 as int].hierarchy + 1
    } by {
        assert(node_wf(h.book_marks@, i));
    }
}

/// The positions of the bookmarks without children, in list order.
pub fn map_book_marks_pages(book_marks: &Vec<BookMark>) -> (r: Vec<usize>)
    ensures
        r@ == leaf_ids(book_marks@, book_marks@.len() as int),
{
    let mut leaves: Vec<usize> = Vec::new();
    let mut i: usize = 0;
    while i < book_marks.len()
        invariant
            i <= book_marks@.len(),
            leaves@ == leaf_ids(book_marks@, i as int),
        decreases book_marks@.len() - i,
    {
        if book_marks[i].sub.len() == 0 {
            leaves.push(i);
        }
        i += 1;
    }
    leaves
}

} // verus!
