//! Moving through the bookmark tree: lookup by path and by page, expanding
//! and collapsing, and the list of bookmarks shown.
use vstd::prelude::*;
use crate::pdf::{leaf_ids, lemma_leaf_ids_facts, node_linked, node_wf, tree_wf, BookMark, BookMarkIndex, PdfHandler};

verus! {

impl PdfHandler {
    /// Shows or hides the children of bookmark `i` (nothing happens to a
    /// bookmark without children).
    pub fn set_expansion(&mut self, i: usize, show: bool)
        requires
            old(self).wf(),
            i < old(self).book_marks@.len(),
        ensures
            final(self).wf(),
            final(self).book_marks@.len() == old(self).book_marks@.len(),
            forall|x: int|
                0 <= x < old(self).book_marks@.len() ==> same_shape(
                    #[trigger] old(self).book_marks@[x],
                    final(self).book_marks@[x],
                ),
            old(self).book_marks@[i as int].sub@.len() == 0 ==> final(self).book_marks@ == old(self).book_marks@,
            old(self).book_marks@[i as int].sub@.len() > 0 ==> {
                &&& forall|x: int|
                    0 <= x < old(self).book_marks@.len() ==> #[trigger] final(self).book_marks@[x].sub_show == if x
                        == i {
                        show
                    } else {
                        old(self).book_marks@[x].sub_show
                    }
                &&& forall|x: int|
                    0 <= x < old(self).book_marks@.len() ==> #[trigger] final(self).book_marks@[x].show == if old(
                        self,
                    ).book_marks@[i as int].sub@.contains(x as usize) {
                        show
                    } else {
                        old(self).book_marks@[x].show
                    }
            },
            final(self).roots == old(self).roots,
            final(self).book_marks_pages == old(self).book_marks_pages,
            final(self).page_map == old(self).page_map,
            final(self).page_nums == old(self).page_nums,
            final(self).pdf_path == old(self).pdf_path,
            final(self).title == old(self).title,
    {
        let ghost orig = self.book_marks@;
        proof {
            assert(self.book_marks@.len() == self.book_marks.len());
            assert(node_wf(orig, i as int));
        }
        let n = self.book_marks[i].sub.len();
        if n == 0 {
            return;
        }
        self.book_marks[i].sub_show = show;
        let mut k: usize = 0;
        while k < n
            invariant
                self.page_map == old(self).page_map,
                self.page_nums == old(self).page_nums,
                self.pdf_path == old(self).pdf_path,
                self.title == old(self).title,
                self.roots == old(self).roots,
                self.book_marks_pages == old(self).book_marks_pages,
                orig == old(self).book_marks@,
                k <= n == orig[i as int].sub@.len(),
                i < orig.len() <= usize::MAX,
                node_wf(orig, i as int),
                self.book_marks@.len() == orig.len(),
                forall|x: int| 0 <= x < orig.len() ==> same_shape(#[trigger] orig[x], self.book_marks@[x]),
                forall|x: int|
                    0 <= x < orig.len() ==> #[trigger] self.book_marks@[x].sub_show == if x == i {
                        show
                    } else {
                        orig[x].sub_show
                    },
                forall|x: int|
                    0 <= x < orig.len() ==> #[trigger] self.book_marks@[x].show == if orig[i as int].sub@.take(
                        k as int,
                    ).contains(x as usize) {
                        show
                    } else {
                        orig[x].show
                    },
            decreases n - k,
        {
            let c = self.book_marks[i].sub[k];
            let ghost before = self.book_marks@;
            self.book_marks[c].show = show;
            proof {
                let sub = orig[i as int].sub@;
                assert(sub.take(k + 1) =~= sub.take(k as int).push(c));
                assert forall|x: int| 0 <= x < orig.len() implies #[trigger] self.book_marks@[x].show == if sub.take(
                    k + 1,
                ).contains(x as usize) {
                    show
                } else {
                    orig[x].show
                } by {
                    assert(sub.take(k + 1)[k as int] == c);
                    if x == c as int {
                    } else {
                        assert(self.book_marks@[x] == before[x]);
                        if sub.take(k as int).contains(x as usize) {
                            let j = choose|j: int| 0 <= j < k && #[trigger] sub.take(k as int)[j] == x as usize;
                            assert(sub.take(k + 1)[j] == x as usize);
                        }
                        if sub.take(k + 1).contains(x as usize) {
                            let j = choose|j: int| 0 <= j < k + 1 && #[trigger] sub.take(k + 1)[j] == x as usize;
                            assert(sub.take(k as int)[j] == x as usize);
                        }
                    }
                }
            }
            k += 1;
        }
        proof {
            assert(orig[i as int].sub@.take(n as int) =~= orig[i as int].sub@);
            assert forall|x: int| 0 <= x < orig.len() && orig[x].parent is None implies #[trigger] self.book_marks@[x].show by {
                assert(node_wf(orig, x));
                if orig[i as int].sub@.contains(x as usize) {
                    let j = choose|j: int| 0 <= j < n && orig[i as int].sub@[j] == x as usize;
                    assert(orig[orig[i as int].sub@[j] as int].parent == Some(i));
                }
            }
            lemma_tree_wf_shape(orig, self.book_marks@, self.roots@);
            lemma_leaf_ids_shape(orig, self.book_marks@, orig.len() as int);
        }
    }

    /// The paths of the listed bookmarks, in outline order: what the table of
    /// contents shows.
    pub fn visible_rows(&self) -> (rows: Vec<BookMarkIndex>)
        requires
            self.wf(),
        ensures
            paths_view(rows@) == listed_paths(self.book_marks@, self.book_marks@.len() as int),
    {
        let nodes = &self.book_marks;
        let mut flags: Vec<bool> = Vec::new();
        let mut rows: Vec<BookMarkIndex> = Vec::new();
        let mut i: usize = 0;
        while i < nodes.len()
            invariant
                self.wf(),
                nodes == &self.book_marks,
                i <= nodes@.len(),
                flags@.len() == i,
                forall|j: int| 0 <= j < i ==> flags@[j] == listed(nodes@, j),
                paths_view(rows@) == listed_paths(nodes@, i as int),
            decreases nodes@.len() - i,
        {
            proof {
                assert(node_wf(nodes@, i as int));
            }
            let shown = nodes[i].show && match nodes[i].parent {
                None => true,
                Some(p) => flags[p],
            };
            flags.push(shown);
            if shown {
                rows.push(nodes[i].index.clone_index());
                proof {
                    assert(paths_view(rows@) =~= listed_paths(nodes@, i as int).push(nodes@[i as int].index@));
                }
            }
            i += 1;
        }
        rows
    }

    /// The position of the bookmark that `index` leads to, if any.
    pub fn find_book_mark(&self, index: &BookMarkIndex) -> (r: Option<usize>)
        requires
            self.wf(),
        ensures
            r == node_at(self.book_marks@, self.roots@, index@),
            r matches Some(i) ==> i < self.book_marks@.len(),
    {
        let n = index.inner.len();
        if n == 0 {
            return None;
        }
        let first = index.inner[0];
        if first >= self.roots.len() {
            proof {
                assert(index@.take(1).drop_last() =~= Seq::<usize>::empty());
                lemma_node_at_none_extends(self.book_marks@, self.roots@, index@, 1);
            }
            return None;
        }
        let mut cur = self.roots[first];
        let mut d: usize = 1;
        proof {
            assert(index@.take(1).drop_last() =~= Seq::<usize>::empty());
            assert(node_at(self.book_marks@, self.roots@, index@.take(1)) == Some(cur));
        }
        while d < n
            invariant
                self.wf(),
                1 <= d <= n == index@.len(),
                cur < self.book_marks@.len(),
                node_at(self.book_marks@, self.roots@, index@.take(d as int)) == Some(cur),
            decreases n - d,
        {
            let k = index.inner[d];
            proof {
                assert(index@.take(d + 1).drop_last() =~= index@.take(d as int));
                assert(node_wf(self.book_marks@, cur as int));
            }
            if k >= self.book_marks[cur].sub.len() {
                proof {
                    lemma_node_at_none_extends(self.book_marks@, self.roots@, index@, (d + 1) as int);
                }
                return None;
            }
            cur = self.book_marks[cur].sub[k];
            d += 1;
        }
        proof {
            assert(index@.take(n as int) =~= index@);
        }
        Some(cur)
    }

    /// Looks up the bookmark for page `page_num` and lists it: its collapsed
    /// ancestors, from the nearest up to the first expanded one, are expanded.
    pub fn find_book_mark_by_page_num(&mut self, page_num: u32) -> (r: Option<usize>)
        requires
            old(self).wf(),
        ensures
            final(self).wf(),
            lookup_step(*old(self), *final(self), page_num as int, r),
    {
        let len = self.book_marks_pages.len();
        if len == 0 {
            return None;
        }
        let j = self.leaf_rank(page_num);
        let leaf = self.book_marks_pages[j];
        proof {
            assert(self.book_marks@.len() == self.book_marks.len());
            lemma_leaf_ids_facts(self.book_marks@, self.book_marks@.len() as int);
        }
        self.reveal_ancestors(leaf);
        Some(leaf)
    }

    /// The rank among the leaves where `page_num` falls, by binary search.
    fn leaf_rank(&self, page_num: u32) -> (j: usize)
        requires
            self.wf(),
            self.book_marks_pages@.len() > 0,
        ensures
            j < self.book_marks_pages@.len(),
            pages_sorted(self.book_marks@, self.book_marks_pages@) ==> covers(
                self.book_marks@,
                self.book_marks_pages@,
                j as int,
                page_num as int,
            ),
    {
        let ghost nodes = self.book_marks@;
        let ghost leaves = self.book_marks_pages@;
        proof {
            assert(self.book_marks@.len() == self.book_marks.len());
            lemma_leaf_ids_facts(nodes, nodes.len() as int);
        }
        let mut lo: usize = 0;
        let mut hi: usize = self.book_marks_pages.len();
        while lo < hi
            invariant
                nodes == self.book_marks@,
                leaves == self.book_marks_pages@,
                self.wf(),
                forall|j: int| 0 <= j < leaves.len() ==> #[trigger] leaves[j] < nodes.len(),
                lo <= hi <= leaves.len(),
                pages_sorted(nodes, leaves) ==> forall|b: int|
                    0 <= b < lo ==> leaf_page(nodes, leaves, b) <= page_num,
                pages_sorted(nodes, leaves) ==> forall|b: int|
                    hi <= b < leaves.len() ==> leaf_page(nodes, leaves, b) > page_num,
            decreases hi - lo,
        {
            let mid = lo + (hi - lo) / 2;
            let page = self.book_marks[self.book_marks_pages[mid]].num;
            if page <= page_num {
                proof {
                    if pages_sorted(nodes, leaves) {
                        assert forall|b: int| 0 <= b < mid + 1 implies leaf_page(nodes, leaves, b) <= page_num by {
                            if b < mid {
                                assert(leaf_page(nodes, leaves, b) <= leaf_page(nodes, leaves, mid as int));
                            }
                        }
                    }
                }
                lo = mid + 1;
            } else {
                proof {
                    if pages_sorted(nodes, leaves) {
                        assert forall|b: int| mid <= b < leaves.len() implies leaf_page(nodes, leaves, b) > page_num by {
                            if b > mid {
                                assert(leaf_page(nodes, leaves, mid as int) <= leaf_page(nodes, leaves, b));
                            }
                        }
                    }
                }
                hi = mid;
            }
        }
        if lo == 0 {
            proof {
                if pages_sorted(nodes, leaves) {
                    assert(!exists|b: int| 0 <= b < leaves.len() && leaf_page(nodes, leaves, b) <= page_num);
                }
            }
            0
        } else {
            proof {
                if pages_sorted(nodes, leaves) {
                    assert(leaf_page(nodes, leaves, lo - 1) <= page_num);
                }
            }
            lo - 1
        }
    }

    /// One step of `reveal_ancestors`: expands `p`, the collapsed parent of
    /// `cur` on the way up from `leaf`.
    fn expand_for(&mut self, orig: Ghost<Seq<BookMark>>, leaf: usize, cur: usize, p: usize)
        requires
            tree_wf(orig@, old(self).roots@),
            cur < orig@.len(),
            cur == leaf || opens(orig@, leaf as int, cur as int),
            orig@[cur as int].parent == Some(p),
            p < cur,
            !orig@[p as int].sub_show,
            opens(orig@, leaf as int, p as int),
            old(self).book_marks@.len() == orig@.len(),
            forall|x: int| 0 <= x < orig@.len() ==> same_shape(#[trigger] orig@[x], old(self).book_marks@[x]),
            forall|x: int|
                0 <= x < orig@.len() ==> #[trigger] old(self).book_marks@[x].sub_show == (orig@[x].sub_show || (
                opens(orig@, leaf as int, x) && x >= cur)),
            forall|x: int|
                0 <= x < orig@.len() ==> #[trigger] old(self).book_marks@[x].show == (orig@[x].show || exists|a: int|
                    cur <= a < orig@.len() && #[trigger] opens(orig@, leaf as int, a) && orig@[a].sub@.contains(
                    x as usize,
                )),
        ensures
            final(self).page_map == old(self).page_map,
            final(self).page_nums == old(self).page_nums,
            final(self).pdf_path == old(self).pdf_path,
            final(self).title == old(self).title,
            final(self).roots == old(self).roots,
            final(self).book_marks_pages == old(self).book_marks_pages,
            final(self).book_marks@.len() == orig@.len(),
            forall|x: int| 0 <= x < orig@.len() ==> same_shape(#[trigger] orig@[x], final(self).book_marks@[x]),
            forall|x: int|
                0 <= x < orig@.len() ==> #[trigger] final(self).book_marks@[x].sub_show == (orig@[x].sub_show || (
                opens(orig@, leaf as int, x) && x >= p)),
            forall|x: int|
                0 <= x < orig@.len() ==> #[trigger] final(self).book_marks@[x].show == (orig@[x].show || exists|a: int|
                    p <= a < orig@.len() && #[trigger] opens(orig@, leaf as int, a) && orig@[a].sub@.contains(
                    x as usize,
                )),
    {
        let ghost start = self.book_marks@;
        proof {
            assert(self.book_marks@.len() == self.book_marks.len());
            assert(same_shape(orig@[p as int], start[p as int]));
            assert(node_wf(orig@, p as int));
        }
        self.book_marks[p].sub_show = true;
        let n = self.book_marks[p].sub.len();
        let mut k: usize = 0;
        while k < n
            invariant
                self.page_map == old(self).page_map,
                self.page_nums == old(self).page_nums,
                self.pdf_path == old(self).pdf_path,
                self.title == old(self).title,
                self.roots == old(self).roots,
                self.book_marks_pages == old(self).book_marks_pages,
                k <= n == orig@[p as int].sub@.len(),
                p < orig@.len() <= usize::MAX,
                node_wf(orig@, p as int),
                self.book_marks@.len() == orig@.len(),
                forall|x: int| 0 <= x < orig@.len() ==> same_shape(#[trigger] orig@[x], self.book_marks@[x]),
                forall|x: int|
                    0 <= x < orig@.len() ==> #[trigger] self.book_marks@[x].sub_show == (start[x].sub_show || x
                        == p),
                forall|x: int|
                    0 <= x < orig@.len() ==> #[trigger] self.book_marks@[x].show == (start[x].show
                        || orig@[p as int].sub@.take(k as int).contains(x as usize)),
            decreases n - k,
        {
            let c = self.book_marks[p].sub[k];
            proof {
                assert(orig@[p as int].sub@[k as int] == c);
            }
            let ghost before = self.book_marks@;
            self.book_marks[c].show = true;
            proof {
                let sub = orig@[p as int].sub@;
                assert(sub.take(k + 1) =~= sub.take(k as int).push(c));
                assert forall|x: int| 0 <= x < orig@.len() implies #[trigger] self.book_marks@[x].show == (start[x].show
                    || sub.take(k + 1).contains(x as usize)) by {
                    if x == c as int {
                        assert(sub.take(k + 1)[k as int] == c);
                    } else {
                        assert(self.book_marks@[x] == before[x]);
                        if sub.take(k as int).contains(x as usize) {
                            let i = choose|i: int| 0 <= i < k && #[trigger] sub.take(k as int)[i] == x as usize;
                            assert(sub.take(k + 1)[i] == x as usize);
                        }
                        assert(sub.take(k + 1)[k as int] == c);
                        if sub.take(k + 1).contains(x as usize) {
                            let i = choose|i: int| 0 <= i < k + 1 && #[trigger] sub.take(k + 1)[i] == x as usize;
                            assert(sub.take(k as int)[i] == x as usize);
                        }
                    }
                }
            }
            k += 1;
        }
        proof {
            assert(orig@[p as int].sub@.take(n as int) =~= orig@[p as int].sub@);
            assert forall|a: int| p < a < cur && opens(orig@, leaf as int, a) implies false by {
                lemma_opens_through(orig@, leaf as int, cur as int, a);
                if a != p {
                    lemma_opens_below(orig@, p as int, a);
                }
            }
            assert forall|x: int| 0 <= x < orig@.len() implies #[trigger] self.book_marks@[x].show == (
            orig@[x].show || exists|a: int|
                p <= a < orig@.len() && #[trigger] opens(orig@, leaf as int, a) && orig@[a].sub@.contains(
                x as usize,
            )) by {
                if exists|a: int|
                    p <= a < orig@.len() && #[trigger] opens(orig@, leaf as int, a) && orig@[a].sub@.contains(
                        x as usize,
                    ) {
                    let a = choose|a: int|
                        p <= a < orig@.len() && #[trigger] opens(orig@, leaf as int, a) && orig@[a].sub@.contains(
                            x as usize,
                        );
                    if a != p {
                        assert(cur <= a);
                    }
                }
            }
        }
    }

    /// Expands the collapsed ancestors of bookmark `leaf`, nearest first,
    /// stopping at the first one already expanded.
    fn reveal_ancestors(&mut self, leaf: usize)
        requires
            old(self).wf(),
            leaf < old(self).book_marks@.len(),
        ensures
            final(self).wf(),
            revealed(old(self).book_marks@, final(self).book_marks@, leaf as int),
            final(self).roots == old(self).roots,
            final(self).book_marks_pages == old(self).book_marks_pages,
            final(self).page_map == old(self).page_map,
            final(self).page_nums == old(self).page_nums,
            final(self).pdf_path == old(self).pdf_path,
            final(self).title == old(self).title,
    {
        let ghost orig = self.book_marks@;
        let mut cur = leaf;
        proof {
            assert forall|x: int| opens(orig, leaf as int, x) implies x < leaf by {
                lemma_opens_below(orig, leaf as int, x);
            }
        }
        loop
            invariant_except_break
                cur < orig.len(),
                cur == leaf || opens(orig, leaf as int, cur as int),
            invariant
                self.page_map == old(self).page_map,
                self.page_nums == old(self).page_nums,
                self.pdf_path == old(self).pdf_path,
                self.title == old(self).title,
                self.roots == old(self).roots,
                self.book_marks_pages == old(self).book_marks_pages,
                tree_wf(orig, self.roots@),
                old(self).wf(),
                orig == old(self).book_marks@,
                self.book_marks@.len() == orig.len(),
                forall|x: int| 0 <= x < orig.len() ==> same_shape(#[trigger] orig[x], self.book_marks@[x]),
                forall|x: int|
                    0 <= x < orig.len() ==> #[trigger] self.book_marks@[x].sub_show == (orig[x].sub_show || (
                    opens(orig, leaf as int, x) && x >= cur)),
                forall|x: int|
                    0 <= x < orig.len() ==> #[trigger] self.book_marks@[x].show == (orig[x].show || exists|a: int|
                        cur <= a < orig.len() && #[trigger] opens(orig, leaf as int, a) && orig[a].sub@.contains(
                        x as usize,
                    )),
            ensures
                forall|a: int| 0 <= a < cur && opens(orig, leaf as int, a) ==> false,
            decreases cur,
        {
            proof {
                assert(node_wf(orig, cur as int));
            }
            match self.book_marks[cur].parent {
                None => {
                    proof {
                        assert forall|a: int| 0 <= a < cur && opens(orig, leaf as int, a) implies false by {
                            lemma_opens_through(orig, leaf as int, cur as int, a);
                        }
                    }
                    break;
                },
                Some(p) => {
                    if self.book_marks[p].sub_show {
                        proof {
                            assert forall|a: int| 0 <= a < cur && opens(orig, leaf as int, a) implies false by {
                                lemma_opens_through(orig, leaf as int, cur as int, a);
                                lemma_opens_below(orig, leaf as int, a);
                            }
                        }
                        break;
                    }
                    proof {
                        lemma_opens_extend(orig, leaf as int, cur as int, p);
                        assert(node_wf(orig, p as int));
                    }
                    self.expand_for(Ghost(orig), leaf, cur, p);
                    cur = p;
                },
            }
        }
        proof {
            assert forall|x: int| 0 <= x < orig.len() && orig[x].parent is None implies #[trigger] self.book_marks@[x].show by {
                assert(node_wf(orig, x));
            }
            lemma_tree_wf_shape(orig, self.book_marks@, self.roots@);
            assert forall|x: int| 0 <= x < orig.len() implies #[trigger] self.book_marks@[x].sub_show == (
            orig[x].sub_show || opens(orig, leaf as int, x)) by {
                if opens(orig, leaf as int, x) {
                    lemma_opens_below(orig, leaf as int, x);
                }
            }
            assert forall|x: int| 0 <= x < orig.len() implies #[trigger] self.book_marks@[x].show == (orig[x].show
                || child_of_opened(orig, leaf as int, x)) by {
                if child_of_opened(orig, leaf as int, x) {
                    let a = choose|a: int| 0 <= a < orig.len() && #[trigger] opens(orig, leaf as int, a)
                        && orig[a].sub@.contains(x as usize);
                    assert(cur <= a);
                }
            }
            lemma_leaf_ids_shape(orig, self.book_marks@, orig.len() as int);
        }
    }
}

/// The bookmark that `path` leads to: its first index picks a root, each
/// following index a child of the bookmark reached so far.
pub open spec fn node_at(nodes: Seq<BookMark>, roots: Seq<usize>, path: Seq<usize>) -> Option<usize>
    decreases path.len(),
{
    if path.len() == 0 {
        None
    } else if path.len() == 1 {
        if path[0] < roots.len() {
            Some(roots[path[0] as int])
        } else {
            None
        }
    } else {
        match node_at(nodes, roots, path.drop_last()) {
            Some(p) => if p < nodes.len() && path.last() < nodes[p as int].sub@.len() {
                Some(nodes[p as int].sub@[path.last() as int])
            } else {
                None
            },
            None => None,
        }
    }
}

/// Two versions of a bookmark that differ at most in what is listed.
pub open spec fn same_shape(a: BookMark, b: BookMark) -> bool {
    &&& a.name == b.name
    &&& a.num == b.num
    &&& a.sub == b.sub
    &&& a.hierarchy == b.hierarchy
    &&& a.parent == b.parent
    &&& a.index == b.index
}

/// `a` is an ancestor of bookmark `c`, and `c`'s ancestors up to and including
/// `a` all have their children hidden.
pub open spec fn opens(nodes: Seq<BookMark>, c: int, a: int) -> bool
    decreases c,
{
    if 0 <= c < nodes.len() {
        match nodes[c].parent {
            Some(p) => if p < c && !nodes[p as int].sub_show {
                p == a || opens(nodes, p as int, a)
            } else {
                false
            },
            None => false,
        }
    } else {
        false
    }
}

/// `x` is a child of an ancestor of `leaf` that `opens` names.
pub open spec fn child_of_opened(nodes: Seq<BookMark>, leaf: int, x: int) -> bool {
    exists|a: int| 0 <= a < nodes.len() && #[trigger] opens(nodes, leaf, a) && nodes[a].sub@.contains(x as usize)
}

/// `after` is `before` with the ancestors of `leaf` expanded, from the nearest
/// one up to the first that was already expanded (which is left as it is):
/// each of them has its children listed.
pub open spec fn revealed(before: Seq<BookMark>, after: Seq<BookMark>, leaf: int) -> bool {
    &&& after.len() == before.len()
    &&& forall|x: int| 0 <= x < before.len() ==> same_shape(#[trigger] before[x], after[x])
    &&& forall|x: int|
        0 <= x < before.len() ==> #[trigger] after[x].sub_show == (before[x].sub_show || opens(before, leaf, x))
    &&& forall|x: int|
        0 <= x < before.len() ==> #[trigger] after[x].show == (before[x].show || child_of_opened(before, leaf, x))
}

/// The page of the leaf of rank `j`.
pub open spec fn leaf_page(nodes: Seq<BookMark>, leaves: Seq<usize>, j: int) -> int {
    nodes[leaves[j] as int].num as int
}

/// The leaves are in increasing order of page.
pub open spec fn pages_sorted(nodes: Seq<BookMark>, leaves: Seq<usize>) -> bool {
    forall|a: int, b: int| 0 <= a < b < leaves.len() ==> leaf_page(nodes, leaves, a) <= leaf_page(nodes, leaves, b)
}

/// Rank `j` is where page `p` falls among the leaves: the last leaf whose page
/// is at most `p`, or the first leaf when every page is past `p`.
pub open spec fn covers(nodes: Seq<BookMark>, leaves: Seq<usize>, j: int, p: int) -> bool {
    if exists|b: int| 0 <= b < leaves.len() && leaf_page(nodes, leaves, b) <= p {
        &&& leaf_page(nodes, leaves, j) <= p
        &&& forall|b: int| j < b < leaves.len() ==> leaf_page(nodes, leaves, b) > p
    } else {
        j == 0
    }
}

/// What the page lookup returns: no bookmark when there are no leaves, else a
/// leaf, which on leaves sorted by page is the one where `p` falls.
pub open spec fn lookup_result(nodes: Seq<BookMark>, leaves: Seq<usize>, p: int, r: Option<usize>) -> bool {
    &&& (r is None <==> leaves.len() == 0)
    &&& r matches Some(i) ==> exists|j: int|
        0 <= j < leaves.len() && leaves[j] == i && (pages_sorted(nodes, leaves) ==> covers(nodes, leaves, j, p))
}

proof fn lemma_opens_below(nodes: Seq<BookMark>, c: int, a: int)
    requires
        opens(nodes, c, a),
    ensures
        0 <= a < c,
        0 <= c < nodes.len(),
    decreases c,
{
    let p = nodes[c].parent->0 as int;
    if p != a {
        lemma_opens_below(nodes, p, a);
    }
}

/// An ancestor opened from `leaf` and above `cur`, where `cur` is `leaf` or an
/// ancestor opened from it, is opened from `cur` too.
proof fn lemma_opens_through(nodes: Seq<BookMark>, leaf: int, cur: int, a: int)
    requires
        opens(nodes, leaf, a),
        cur == leaf || opens(nodes, leaf, cur),
        a < cur,
    ensures
        opens(nodes, cur, a),
    decreases leaf,
{
    if cur != leaf {
        let p = nodes[leaf].parent->0 as int;
        if p != cur {
            lemma_opens_below(nodes, p, cur);
            lemma_opens_through(nodes, p, cur, a);
        }
    }
}

/// An opened chain extends by one more collapsed parent.
proof fn lemma_opens_extend(nodes: Seq<BookMark>, leaf: int, cur: int, p: usize)
    requires
        cur == leaf || opens(nodes, leaf, cur),
        0 <= cur < nodes.len(),
        nodes[cur].parent == Some(p),
        p < cur,
        !nodes[p as int].sub_show,
    ensures
        opens(nodes, leaf, p as int),
    decreases leaf,
{
    if cur != leaf {
        lemma_opens_below(nodes, leaf, cur);
        let q = nodes[leaf].parent->0 as int;
        if q != cur {
            lemma_opens_below(nodes, q, cur);
            lemma_opens_extend(nodes, q, cur, p);
        } else {
            assert(opens(nodes, cur, p as int));
        }
    }
}

proof fn lemma_leaf_ids_shape(a: Seq<BookMark>, b: Seq<BookMark>, n: int)
    requires
        0 <= n <= a.len() == b.len(),
        forall|x: int| 0 <= x < a.len() ==> same_shape(#[trigger] a[x], b[x]),
    ensures
        leaf_ids(a, n) == leaf_ids(b, n),
    decreases n,
{
    if n > 0 {
        assert(same_shape(a[n - 1], b[n - 1]));
        lemma_leaf_ids_shape(a, b, n - 1);
    }
}

/// A forest that differs from a well-formed one only in what is listed, and
/// whose roots are still listed, is well formed.
proof fn lemma_tree_wf_shape(a: Seq<BookMark>, b: Seq<BookMark>, roots: Seq<usize>)
    requires
        tree_wf(a, roots),
        a.len() == b.len(),
        forall|x: int| 0 <= x < a.len() ==> same_shape(#[trigger] a[x], b[x]),
        forall|x: int| 0 <= x < a.len() && a[x].parent is None ==> #[trigger] b[x].show,
    ensures
        tree_wf(b, roots),
{
    assert forall|i: int| 0 <= i < b.len() implies #[trigger] node_wf(b, i) by {
        assert(node_wf(a, i));
        assert(same_shape(a[i], b[i]));
        if let Some(p) = a[i].parent {
            assert(same_shape(a[p as int], b[p as int]));
            assert forall|j: int| p < j < i implies #[trigger] b[j].hierarchy > b[p as int].hierarchy by {
                assert(same_shape(a[j], b[j]));
            }
        }
        assert forall|k: int| 0 <= k < b[i].sub@.len() implies i < #[trigger] b[i].sub@[k] < b.len()
            && b[b[i].sub@[k] as int].parent == Some(i as usize) && b[b[i].sub@[k] as int].index@
            == b[i].index@.push(k as usize) by {
            assert(same_shape(a[a[i].sub@[k] as int], b[a[i].sub@[k] as int]));
        }
    }
    assert forall|i: int| 0 <= i < b.len() implies #[trigger] node_linked(b, roots, i) by {
        assert(node_linked(a, roots, i));
        assert(same_shape(a[i], b[i]));
        assert(node_wf(a, i));
        if let Some(p) = a[i].parent {
            assert(same_shape(a[p as int], b[p as int]));
        }
    }
    assert forall|k: int| 0 <= k < roots.len() implies #[trigger] roots[k] < b.len() && b[roots[k] as int].parent is None
        && b[roots[k] as int].index@ == seq![k as usize] by {
        assert(same_shape(a[roots[k] as int], b[roots[k] as int]));
    }
}

/// Bookmark `i` is listed: it is shown, and so is every ancestor.
pub open spec fn listed(nodes: Seq<BookMark>, i: int) -> bool
    decreases i,
{
    if 0 <= i < nodes.len() {
        nodes[i].show && match nodes[i].parent {
            None => true,
            Some(p) => p < i && listed(nodes, p as int),
        }
    } else {
        false
    }
}

/// The paths of the listed bookmarks among the first `n`, in list order.
pub open spec fn listed_paths(nodes: Seq<BookMark>, n: int) -> Seq<Seq<usize>>
    decreases n,
{
    if n <= 0 {
        seq![]
    } else if listed(nodes, n - 1) {
        listed_paths(nodes, n - 1).push(nodes[n - 1].index@)
    } else {
        listed_paths(nodes, n - 1)
    }
}

/// The views of a list of paths.
pub open spec fn paths_view(rows: Seq<BookMarkIndex>) -> Seq<Seq<usize>> {
    rows.map_values(|r: BookMarkIndex| r@)
}

/// What a page lookup does to a handler: `r` is the bookmark that
/// `lookup_result` describes, and the bookmarks change as `revealed` says
/// (not at all when there is no result); nothing else changes.
pub open spec fn lookup_step(before: PdfHandler, after: PdfHandler, p: int, r: Option<usize>) -> bool {
    &&& lookup_result(before.book_marks@, before.book_marks_pages@, p, r)
    &&& r is None ==> after.book_marks@ == before.book_marks@
    &&& r matches Some(i) ==> revealed(before.book_marks@, after.book_marks@, i as int)
    &&& after.roots == before.roots
    &&& after.book_marks_pages == before.book_marks_pages
    &&& after.page_map == before.page_map
    &&& after.page_nums == before.page_nums
    &&& after.pdf_path == before.pdf_path
    &&& after.title == before.title
}

/// In a well-formed forest, of two bookmarks with the same parent (or two
/// roots), the one earlier in the list (in outline order) has the smaller last
/// path step: paths are the child indices in outline order.
pub proof fn lemma_sibling_paths_in_order(nodes: Seq<BookMark>, roots: Seq<usize>, i: int, j: int)
    requires
        tree_wf(nodes, roots),
        0 <= i < j < nodes.len(),
        nodes[i].parent == nodes[j].parent,
    ensures
        nodes[i].index@.last() < nodes[j].index@.last(),
{
    assert(node_linked(nodes, roots, i));
    assert(node_linked(nodes, roots, j));
    let ki = nodes[i].index@.last();
    let kj = nodes[j].index@.last();
    if let Some(p) = nodes[i].parent {
        assert(node_wf(nodes, i));
        assert(node_wf(nodes, p as int));
        if kj < ki {
            assert(nodes[p as int].sub@[kj as int] < nodes[p as int].sub@[ki as int]);
        }
    } else {
        assert(nodes[i].index@.last() == nodes[i].index@[0]);
        assert(nodes[j].index@.last() == nodes[j].index@[0]);
        if kj < ki {
            assert(roots[kj as int] < roots[ki as int]);
        }
    }
}

/// In a well-formed forest, the path a bookmark carries leads to it.
pub proof fn lemma_index_leads_to_node(nodes: Seq<BookMark>, roots: Seq<usize>, i: int)
    requires
        tree_wf(nodes, roots),
        0 <= i < nodes.len(),
    ensures
        node_at(nodes, roots, nodes[i].index@) == Some(i as usize),
    decreases i,
{
    assert(node_wf(nodes, i));
    assert(node_linked(nodes, roots, i));
    let path = nodes[i].index@;
    if let Some(p) = nodes[i].parent {
        let k = path.last();
        assert(node_wf(nodes, p as int));
        assert(node_linked(nodes, roots, p as int));
        assert(nodes[nodes[p as int].sub@[k as int] as int].index@ == nodes[p as int].index@.push(k));
        lemma_index_leads_to_node(nodes, roots, p as int);
        assert(path.drop_last() =~= nodes[p as int].index@);
    }
}

/// With the leaves in page order, looking the same page up twice leaves the
/// bookmarks as the first lookup left them, and returns the same bookmark.
pub proof fn lemma_lookup_idempotent(
    h0: PdfHandler,
    h1: PdfHandler,
    h2: PdfHandler,
    p: int,
    r1: Option<usize>,
    r2: Option<usize>,
)
    requires
        h0.wf(),
        pages_sorted(h0.book_marks@, h0.book_marks_pages@),
        lookup_step(h0, h1, p, r1),
        lookup_step(h1, h2, p, r2),
    ensures
        r2 == r1,
        h2.book_marks@ == h1.book_marks@,
{
    let n0 = h0.book_marks@;
    let n1 = h1.book_marks@;
    let n2 = h2.book_marks@;
    let leaves = h0.book_marks_pages@;
    assert(n0.len() == h0.book_marks.len());
    lemma_leaf_ids_facts(n0, n0.len() as int);
    if let Some(leaf) = r1 {
        assert(forall|j: int| 0 <= j < leaves.len() ==> #[trigger] leaf_page(n1, leaves, j) == leaf_page(n0, leaves, j)) by {
            assert forall|j: int| 0 <= j < leaves.len() implies #[trigger] leaf_page(n1, leaves, j) == leaf_page(n0, leaves, j) by {
                assert(same_shape(n0[leaves[j] as int], n1[leaves[j] as int]));
            }
        }
        assert(pages_sorted(n1, leaves));
        let j1 = choose|j: int| 0 <= j < leaves.len() && leaves[j] == leaf && (pages_sorted(n0, leaves) ==> covers(n0, leaves, j, p));
        let leaf2 = r2->0;
        let j2 = choose|j: int| 0 <= j < leaves.len() && leaves[j] == leaf2 && (pages_sorted(n1, leaves) ==> covers(n1, leaves, j, p));
        if j1 < j2 {
            assert(leaf_page(n0, leaves, j2) <= p);
        } else if j2 < j1 {
            assert(leaf_page(n1, leaves, j1) <= p);
        }
        assert(node_wf(n0, leaf as int));
        assert forall|a: int| 0 <= a < n1.len() implies !opens(n1, leaf as int, a) by {
            assert(same_shape(n0[leaf as int], n1[leaf as int]));
            if let Some(q) = n0[leaf as int].parent {
                if !n0[q as int].sub_show {
                    assert(opens(n0, leaf as int, q as int));
                }
            }
        }
        assert forall|x: int| 0 <= x < n1.len() implies n2[x] == n1[x] by {
            assert(same_shape(n1[x], n2[x]));
            assert(n2[x].sub_show == n1[x].sub_show);
            assert(n2[x].show == n1[x].show);
        }
        assert(n2 =~= n1);
    }
}

/// Once a prefix of `path` leads nowhere, no longer prefix leads anywhere.
proof fn lemma_node_at_none_extends(nodes: Seq<BookMark>, roots: Seq<usize>, path: Seq<usize>, d: int)
    requires
        1 <= d <= path.len(),
        node_at(nodes, roots, path.take(d)) is None,
    ensures
        node_at(nodes, roots, path) is None,
    decreases path.len() - d,
{
    if d < path.len() {
        assert(path.take(d + 1).drop_last() =~= path.take(d));
        lemma_node_at_none_extends(nodes, roots, path, d + 1);
    } else {
        assert(path.take(d) =~= path);
    }
}

} // verus!
