//! Building the bookmark list from a document outline.
use vstd::prelude::*;
use crate::pdf::{
    child_linked, destination_page, node_wf, page_number, title_of, title_text, BookMark, BookMarkIndex,
    Destination, ObjectId, Outline, PdfHandler,
};

verus! {

impl PdfHandler {
    /// Turns the entries of `outlines` into bookmarks at depth `hierarchy`,
    /// appended to `book_marks` under `parent` (whose path is `prefix`), and
    /// returns their positions, in outline order. The bookmarks appended are
    /// those that `entries_from` lists, in its order.
    pub fn parse_outlines(
        &self,
        outlines: &Vec<Outline>,
        book_marks: &mut Vec<BookMark>,
        hierarchy: u32,
        parent: Option<usize>,
        prefix: &BookMarkIndex,
    ) -> (sibs: Vec<usize>)
        requires
            self.page_map@.len() < u32::MAX,
            parent is None ==> hierarchy == 0 && prefix@ == Seq::<usize>::empty(),
            parent matches Some(p) ==> p + 1 == old(book_marks)@.len() && hierarchy == old(book_marks)@[p as int].hierarchy
                + 1 && prefix@ == old(book_marks)@[p as int].index@,
        ensures
            final(book_marks)@.len() == old(book_marks)@.len() + entries_from(outlines@, 0, hierarchy as int).len(),
            forall|i: int|
                0 <= i < old(book_marks)@.len() ==> final(book_marks)@[i] == old(book_marks)@[i],
            forall|i: int|
                old(book_marks)@.len() <= i < final(book_marks)@.len() ==> node_wf(final(book_marks)@, i),
            forall|i: int|
                old(book_marks)@.len() <= i < final(book_marks)@.len() ==> new_node(
                    #[trigger] final(book_marks)@[i],
                    hierarchy as int,
                ),
            forall|i: int|
                0 <= i < entries_from(outlines@, 0, hierarchy as int).len() ==> describes(
                    #[trigger] final(book_marks)@[old(book_marks)@.len() + i],
                    entries_from(outlines@, 0, hierarchy as int)[i],
                    self.page_map@,
                ),
            forall|k: int|
                0 <= k < sibs@.len() ==> old(book_marks)@.len() <= #[trigger] sibs@[k] < final(book_marks)@.len()
                    && final(book_marks)@[sibs@[k] as int].parent == parent
                    && final(book_marks)@[sibs@[k] as int].index@ == prefix@.push(k as usize),
            forall|a: int, b: int| 0 <= a < b < sibs@.len() ==> sibs@[a] < sibs@[b],
            forall|i: int|
                old(book_marks)@.len() <= i < final(book_marks)@.len() ==> #[trigger] linked_while_building(
                    final(book_marks)@,
                    parent,
                    sibs@,
                    i,
                ),
        decreases outlines@,
    {
        let ghost start = book_marks@.len();
        let ghost total = entries_from(outlines@, 0, hierarchy as int);
        let ghost mut done: Seq<EntryView> = Seq::empty();
        let mut sibs: Vec<usize> = Vec::new();
        let mut k: usize = 0;
        while k < outlines.len()
            invariant
                self.page_map@.len() < u32::MAX,
                k <= outlines@.len(),
                parent is None ==> hierarchy == 0,
                parent matches Some(p) ==> p + 1 == start && hierarchy == book_marks@[p as int].hierarchy
                    + 1 && prefix@ == book_marks@[p as int].index@,
                start == old(book_marks)@.len(),
                total == entries_from(outlines@, 0, hierarchy as int),
                done + entries_from(outlines@, k as int, hierarchy as int) == total,
                book_marks@.len() == start + done.len(),
                forall|i: int| 0 <= i < start ==> book_marks@[i] == old(book_marks)@[i],
                forall|i: int| start <= i < book_marks@.len() ==> node_wf(book_marks@, i),
                forall|i: int|
                    start <= i < book_marks@.len() ==> new_node(#[trigger] book_marks@[i], hierarchy as int),
                forall|i: int|
                    0 <= i < done.len() ==> describes(#[trigger] book_marks@[start + i], done[i], self.page_map@),
                forall|j: int|
                    0 <= j < sibs@.len() ==> start <= #[trigger] sibs@[j] < book_marks@.len()
                        && book_marks@[sibs@[j] as int].parent == parent
                        && book_marks@[sibs@[j] as int].index@ == prefix@.push(j as usize),
                forall|a: int, b: int| 0 <= a < b < sibs@.len() ==> sibs@[a] < sibs@[b],
                forall|i: int|
                    start <= i < book_marks@.len() ==> #[trigger] linked_while_building(book_marks@, parent, sibs@, i),
            decreases outlines@.len() - k,
        {
            let ghost rest = entries_from(outlines@, k as int, hierarchy as int);
            match &outlines[k] {
                Outline::Destination(dest) => {
                    let id = book_marks.len();
                    let mut path = prefix.clone_index();
                    path.inner.push(sibs.len());
                    let num = match dest.page {
                        Some(page) => page_number(&self.page_map, page),
                        None => 0,
                    };
                    let node = BookMark {
                        name: title_of(&dest.title),
                        num,
                        sub: Vec::new(),
                        hierarchy,
                        show: hierarchy == 0,
                        sub_show: false,
                        parent,
                        index: path,
                    };
                    let ghost before = book_marks@;
                    let ghost sibs_before = sibs@;
                    let ghost entry = entry_of(dest, hierarchy as int);
                    book_marks.push(node);
                    sibs.push(id);
                    proof {
                        assert forall|i: int| start <= i < book_marks@.len() implies #[trigger] linked_while_building(
                            book_marks@,
                            parent,
                            sibs@,
                            i,
                        ) by {
                            if i < id {
                                assert(linked_while_building(before, parent, sibs_before, i));
                                assert(node_wf(before, i));
                            } else {
                                assert(book_marks@[i].index@.last() == sibs_before.len());
                            }
                        }
                        assert forall|i: int| start <= i < book_marks@.len() implies node_wf(
                            book_marks@,
                            i,
                        ) && new_node(book_marks@[i], hierarchy as int) by {
                            if i < id {
                                assert(node_wf(before, i));
                            }
                        }
                        done = done.push(entry);
                        assert forall|i: int| 0 <= i < done.len() implies describes(
                            #[trigger] book_marks@[start + i],
                            done[i],
                            self.page_map@,
                        ) by {
                            if i < done.len() - 1 {
                                assert(book_marks@[start + i] == before[start + i]);
                            }
                        }
                    }
                    let j = nested_run(outlines, k);
                    proof {
                        lemma_run_end_bounds(outlines@, k + 1);
                    }
                    let ghost kids_total: Seq<EntryView> = if j > k + 1 && hierarchy < u32::MAX {
                        match outlines@[j - 1] {
                            Outline::SubOutlines(nested) => entries_from(nested@, 0, hierarchy + 1),
                            _ => Seq::empty(),
                        }
                    } else {
                        Seq::empty()
                    };
                    proof {
                        assert(rest == seq![entry] + kids_total + entries_from(outlines@, j as int, hierarchy as int));
                    }
                    if j > k + 1 && hierarchy < u32::MAX {
                        if let Outline::SubOutlines(nested) = &outlines[j - 1] {
                            let child_prefix = book_marks[id].index.clone_index();
                            let ghost pre_call = book_marks@;
                            proof {
                                assert(decreases_to!(outlines@ => outlines@[j - 1]));
                            }
                            let kids = self.parse_outlines(nested, book_marks, hierarchy + 1, Some(id), &child_prefix);
                            let ghost built = book_marks@;
                            book_marks[id].sub = kids;
                            proof {
                                assert forall|i: int|
                                    start <= i < book_marks@.len() implies node_wf(book_marks@, i) && new_node(
                                    book_marks@[i],
                                    hierarchy as int,
                                ) by {
                                    if i < id {
                                        assert(node_wf(pre_call, i));
                                        assert(node_wf(built, i));
                                    } else if i > id {
                                        assert(node_wf(built, i));
                                    }
                                }
                                assert forall|i: int|
                                    start <= i < book_marks@.len() implies #[trigger] linked_while_building(
                                    book_marks@,
                                    parent,
                                    sibs@,
                                    i,
                                ) by {
                                    if i <= id {
                                        assert(linked_while_building(pre_call, parent, sibs@, i));
                                        assert(node_wf(pre_call, i));
                                        assert(built[i] == pre_call[i]);
                                    } else {
                                        assert(linked_while_building(built, Some(id), kids@, i));
                                        assert(node_wf(built, i));
                                    }
                                }
                                let old_done = done;
                                done = done + kids_total;
                                assert forall|i: int| 0 <= i < done.len() implies describes(
                                    #[trigger] book_marks@[start + i],
                                    done[i],
                                    self.page_map@,
                                ) by {
                                    if i < old_done.len() {
                                        assert(book_marks@[start + i] == pre_call[start + i] || start + i == id);
                                        assert(describes(pre_call[start + i], old_done[i], self.page_map@));
                                    } else {
                                        let m = i - old_done.len();
                                        assert(describes(built[(id + 1) + m], kids_total[m], self.page_map@));
                                    }
                                }
                            }
                        }
                    }
                    proof {
                        assert(done + entries_from(outlines@, j as int, hierarchy as int) =~= total);
                    }
                    k = j;
                },
                Outline::SubOutlines(_) => {
                    k += 1;
                },
            }
        }
        proof {
            assert(done =~= total);
        }
        sibs
    }
}

/// Bookmark `i` of a list being built under `parent`: it is one of the
/// siblings `sibs` at the rank its path ends with, or it sits deeper and is
/// linked to its parent.
pub open spec fn linked_while_building(nodes: Seq<BookMark>, parent: Option<usize>, sibs: Seq<usize>, i: int) -> bool {
    let path = nodes[i].index@;
    if nodes[i].parent == parent {
        path.len() >= 1 && path.last() < sibs.len() && sibs[path.last() as int] == i
    } else {
        child_linked(nodes, i)
    }
}

/// The end of the run of nested entries that follows entry `k`.
fn nested_run(outlines: &Vec<Outline>, k: usize) -> (j: usize)
    requires
        k < outlines.len(),
    ensures
        j == run_end(outlines@, k + 1),
{
    let mut j: usize = k + 1;
    while j < outlines.len() && matches!(outlines[j], Outline::SubOutlines(_))
        invariant
            k < j <= outlines@.len(),
            run_end(outlines@, k + 1) == run_end(outlines@, j as int),
        decreases outlines@.len() - j,
    {
        j += 1;
    }
    j
}

/// The end of the run of nested entries that starts at `j`.
pub open spec fn run_end(os: Seq<Outline>, j: int) -> int
    decreases os.len() - j,
{
    if 0 <= j < os.len() && os[j] is SubOutlines {
        run_end(os, j + 1)
    } else {
        j
    }
}

/// A run of nested entries ends within the outline, past its start.
pub proof fn lemma_run_end_bounds(os: Seq<Outline>, j: int)
    requires
        0 <= j <= os.len(),
    ensures
        j <= run_end(os, j) <= os.len(),
        forall|i: int| j <= i < run_end(os, j) ==> os[i] is SubOutlines,
    decreases os.len() - j,
{
    if j < os.len() && os[j] is SubOutlines {
        lemma_run_end_bounds(os, j + 1);
    }
}

/// A destination that becomes a bookmark: its raw title, its page reference
/// and its depth.
pub type EntryView = (Option<Seq<u8>>, Option<ObjectId>, int);

pub open spec fn entry_of(d: &Destination, level: int) -> EntryView {
    (
        match d.title {
            Some(b) => Some(b@),
            None => None,
        },
        d.page,
        level,
    )
}

/// The destinations of `os` from entry `k` on that become bookmarks, in
/// order, at depth `level` and below: each destination, then the bookmarks of
/// the last run of nested entries that follows it (deeper nesting than `u32`
/// depths can count is dropped), then the rest. Nested entries that follow no
/// destination yield nothing.
pub open spec fn entries_from(os: Seq<Outline>, k: int, level: int) -> Seq<EntryView>
    decreases os, os.len() - k,
{
    if k < 0 || k >= os.len() {
        Seq::empty()
    } else {
        match os[k] {
            Outline::Destination(d) => {
                let j = run_end(os, k + 1);
                proof {
                    lemma_run_end_bounds(os, k + 1);
                }
                let kids = if j > k + 1 && level < u32::MAX {
                    match os[j - 1] {
                        Outline::SubOutlines(nested) => {
                            proof {
                                assert(decreases_to!(os => os[j - 1]));
                            }
                            entries_from(nested@, 0, level + 1)
                        },
                        _ => Seq::empty(),
                    }
                } else {
                    Seq::empty()
                };
                seq![entry_of(&d, level)] + kids + entries_from(os, j, level)
            },
            Outline::SubOutlines(_) => entries_from(os, k + 1, level),
        }
    }
}

/// The bookmarks of `h` are those that outline `list` yields, in order.
pub open spec fn built_from(h: PdfHandler, list: Seq<Outline>) -> bool {
    &&& h.book_marks@.len() == entries_from(list, 0, 0).len()
    &&& forall|i: int|
        0 <= i < h.book_marks@.len() ==> describes(#[trigger] h.book_marks@[i], entries_from(list, 0, 0)[i], h.page_map@)
}

/// Bookmark `b` is the one made of entry `e`.
pub open spec fn describes(b: BookMark, e: EntryView, pages: Seq<ObjectId>) -> bool {
    &&& b.name@ == title_text(e.0)
    &&& b.num == destination_page(pages, e.1)
    &&& b.hierarchy == e.2
}

/// A freshly built bookmark at depth `level` or below: not expanded, and
/// listed only when it is a root.
pub open spec fn new_node(b: BookMark, level: int) -> bool {
    &&& b.hierarchy >= level
    &&& b.show == (b.hierarchy == 0)
    &&& !b.sub_show
}

} // verus!
