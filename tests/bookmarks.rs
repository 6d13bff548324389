use pdf_terminal_reader::pdf::{
    map_book_marks_pages, page_number, title_of, BookMarkIndex, Destination, ObjectId, Outline,
    PdfHandler, PdfSize,
};

fn dest(title: &str, page: ObjectId) -> Outline {
    Outline::Destination(Destination { title: Some(title.as_bytes().to_vec()), page: Some(page) })
}

fn pages(n: u32) -> Vec<ObjectId> {
    (1..=n).map(|i| (100 + i, 0)).collect()
}

fn page_ref(p: u32) -> ObjectId {
    (100 + p, 0)
}

/// Ch1 (1) [Ch1.1 (2), Ch1.2 (3) [Ch1.2.1 (4)]], Ch2 (5), Ch3 (8) [Ch3.1 (9)]
fn book() -> PdfHandler {
    let outline = vec![
        dest("Ch1", page_ref(1)),
        Outline::SubOutlines(vec![
            dest("Ch1.1", page_ref(2)),
            dest("Ch1.2", page_ref(3)),
            Outline::SubOutlines(vec![dest("Ch1.2.1", page_ref(4))]),
        ]),
        dest("Ch2", page_ref(5)),
        dest("Ch3", page_ref(8)),
        Outline::SubOutlines(vec![dest("Ch3.1", page_ref(9))]),
    ];
    PdfHandler::new("/books/rust.pdf", pages(10), &Some(outline)).unwrap()
}

fn names(h: &PdfHandler) -> Vec<String> {
    h.get_book_marks().iter().map(|b| b.get_name().to_string()).collect()
}

fn visibility(h: &PdfHandler) -> Vec<(bool, bool)> {
    h.get_book_marks().iter().map(|b| (b.is_show(), b.is_sub_show())).collect()
}

#[test]
fn builds_bookmarks_in_outline_order() {
    let h = book();
    assert_eq!(names(&h), vec!["Ch1", "Ch1.1", "Ch1.2", "Ch1.2.1", "Ch2", "Ch3", "Ch3.1"]);
    let nums: Vec<u32> = h.get_book_marks().iter().map(|b| b.get_num()).collect();
    assert_eq!(nums, vec![1, 2, 3, 4, 5, 8, 9]);
    assert_eq!(h.roots, vec![0, 4, 5]);
    assert_eq!(h.book_marks_pages, vec![1, 3, 4, 6]);
    assert_eq!(h.get_title(), "rust");
    assert_eq!(h.get_pdf_path(), "/books/rust.pdf");
    assert_eq!(h.get_page_nums(), 10);
}

#[test]
fn levels_follow_parents() {
    let h = book();
    let marks = h.get_book_marks();
    for (i, b) in marks.iter().enumerate() {
        match b.parent {
            None => {
                assert_eq!(b.get_hierarchy(), 0);
                assert!(b.is_show());
                assert!(h.roots.contains(&i));
            }
            Some(p) => {
                assert_eq!(b.get_hierarchy(), marks[p].get_hierarchy() + 1);
                assert!(!b.is_show());
                assert!(marks[p].get_sub().contains(&i));
            }
        }
        assert!(!b.is_sub_show());
    }
    assert_eq!(marks[3].get_hierarchy(), 2);
    assert_eq!(marks[2].get_sub(), &vec![3]);
    assert_eq!(marks[0].get_sub(), &vec![1, 2]);
}

#[test]
fn paths_lead_to_their_bookmarks() {
    let h = book();
    for (i, b) in h.get_book_marks().iter().enumerate() {
        assert_eq!(h.find_book_mark(&b.index), Some(i));
    }
    assert_eq!(h.find_book_mark(&BookMarkIndex::from(vec![0, 1, 0])), Some(3));
    assert_eq!(h.find_book_mark(&BookMarkIndex::from(vec![2, 0])), Some(6));
    assert_eq!(h.find_book_mark(&BookMarkIndex::from(vec![1, 0])), None);
    assert_eq!(h.find_book_mark(&BookMarkIndex::from(vec![3])), None);
    assert_eq!(h.find_book_mark(&BookMarkIndex::from(vec![])), None);
}

#[test]
fn lookup_finds_greatest_leaf_page_not_after() {
    let mut h = book();
    // leaves: Ch1.1 (2), Ch1.2.1 (4), Ch2 (5), Ch3.1 (9); page 1 precedes them all
    assert_eq!(h.find_book_mark_by_page_num(1), Some(1));
    assert_eq!(h.find_book_mark_by_page_num(2), Some(1));
    assert_eq!(h.find_book_mark_by_page_num(3), Some(1));
    assert_eq!(h.find_book_mark_by_page_num(4), Some(3));
    assert_eq!(h.find_book_mark_by_page_num(5), Some(4));
    assert_eq!(h.find_book_mark_by_page_num(7), Some(4));
    assert_eq!(h.find_book_mark_by_page_num(9), Some(6));
    assert_eq!(h.find_book_mark_by_page_num(10), Some(6));
}

#[test]
fn lookup_reveals_the_ancestors() {
    let mut h = book();
    assert_eq!(h.find_book_mark_by_page_num(4), Some(3));
    let m = h.get_book_marks();
    assert!(m[0].is_sub_show());
    assert!(m[2].is_sub_show());
    assert!(m[1].is_show() && m[2].is_show() && m[3].is_show());
    assert!(!m[5].is_sub_show());
    assert!(!m[6].is_show());
    let rows: Vec<Vec<usize>> = h.visible_rows().iter().map(|r| r.inner.clone()).collect();
    assert_eq!(rows, vec![vec![0], vec![0, 0], vec![0, 1], vec![0, 1, 0], vec![1], vec![2]]);
}

#[test]
fn lookup_stops_at_an_expanded_ancestor() {
    let mut h = book();
    h.set_expansion(0, true);
    // hidden by hand below an expanded Ch1: the walk up stops at Ch1 and leaves it hidden
    h.book_marks[1].show = false;
    assert_eq!(h.find_book_mark_by_page_num(4), Some(3));
    let m = h.get_book_marks();
    assert!(m[2].is_sub_show());
    assert!(m[3].is_show());
    assert!(!m[1].is_show());
}

#[test]
fn lookup_twice_changes_nothing_more() {
    for p in 1..=10 {
        let mut h = book();
        let first = h.find_book_mark_by_page_num(p);
        let after_first = visibility(&h);
        let second = h.find_book_mark_by_page_num(p);
        assert_eq!(first, second);
        assert_eq!(after_first, visibility(&h));
    }
}

#[test]
fn no_outline_means_no_bookmarks() {
    let mut h = PdfHandler::new("/books/plain.pdf", pages(10), &None).unwrap();
    assert!(h.get_book_marks().is_empty());
    assert!(h.book_marks_pages.is_empty());
    for p in 1..=10 {
        assert_eq!(h.find_book_mark_by_page_num(p), None);
    }
    assert!(h.visible_rows().is_empty());
}

#[test]
fn path_without_file_name_is_refused() {
    assert!(PdfHandler::new("/", pages(1), &None).is_none());
}

#[test]
fn expansion_shows_and_hides_children() {
    let mut h = book();
    h.set_expansion(0, true);
    assert!(h.get_book_marks()[0].is_sub_show());
    assert!(h.get_book_marks()[1].is_show() && h.get_book_marks()[2].is_show());
    assert!(!h.get_book_marks()[3].is_show());
    h.set_expansion(0, false);
    assert!(!h.get_book_marks()[0].is_sub_show());
    assert!(!h.get_book_marks()[1].is_show() && !h.get_book_marks()[2].is_show());
    let before = visibility(&h);
    h.set_expansion(4, true);
    assert_eq!(before, visibility(&h));
}

#[test]
fn nested_entries_attach_to_the_preceding_destination() {
    let outline = vec![
        Outline::SubOutlines(vec![dest("orphan", page_ref(1))]),
        dest("A", page_ref(1)),
        Outline::SubOutlines(vec![dest("first run", page_ref(2))]),
        Outline::SubOutlines(vec![dest("second run", page_ref(3))]),
        dest("B", page_ref(4)),
    ];
    let h = PdfHandler::new("doc.pdf", pages(4), &Some(outline)).unwrap();
    assert_eq!(names(&h), vec!["A", "second run", "B"]);
    assert_eq!(h.get_book_marks()[0].get_sub(), &vec![1]);
    assert_eq!(h.get_book_marks()[1].get_hierarchy(), 1);
    assert_eq!(h.get_book_marks()[1].index.inner, vec![0, 0]);
    assert_eq!(h.get_book_marks()[2].index.inner, vec![1]);
}

#[test]
fn titles_and_pages_fall_back() {
    let outline = vec![
        Outline::Destination(Destination { title: None, page: Some((999, 0)) }),
        Outline::Destination(Destination { title: Some(b"Intro".to_vec()), page: None }),
    ];
    let h = PdfHandler::new("doc.pdf", pages(3), &Some(outline)).unwrap();
    assert_eq!(h.get_book_marks()[0].get_name(), "unknown");
    assert_eq!(h.get_book_marks()[0].get_num(), 0);
    assert_eq!(h.get_book_marks()[1].get_name(), "Intro");
    assert_eq!(h.get_book_marks()[1].get_num(), 0);
}

#[test]
fn page_numbers_count_from_one() {
    let ids = pages(5);
    assert_eq!(page_number(&ids, page_ref(1)), 1);
    assert_eq!(page_number(&ids, page_ref(5)), 5);
    assert_eq!(page_number(&ids, (7, 1)), 0);
}

#[test]
fn title_bytes_are_decoded() {
    assert_eq!(title_of(&Some(b"Chapter 1".to_vec())), "Chapter 1");
    assert_eq!(title_of(&Some("第一章 概述".as_bytes().to_vec())), "第一章 概述");
    assert_eq!(title_of(&None), "unknown");
}

#[test]
fn leaves_are_the_childless_bookmarks() {
    let h = book();
    assert_eq!(map_book_marks_pages(h.get_book_marks()), vec![1, 3, 4, 6]);
}

#[test]
fn index_parent_drops_the_last_step() {
    let i = BookMarkIndex::from(vec![2, 0, 4]);
    assert_eq!(i.parent().inner, vec![2, 0]);
    assert_eq!(i.index(2), 4);
    let root = BookMarkIndex::from(vec![3]);
    assert_eq!(root.parent().inner, vec![3]);
    assert_eq!(root.parent().len(), 1);
}

#[test]
fn bookmark_builders_set_fields() {
    let h = book();
    assert_eq!(h.get_book_marks()[2].index.clone_index().inner, vec![0, 1]);
    let mut h = book();
    let m = h.book_marks.remove(0);
    let m = m.name("X".to_string()).num(7).hierarchy(3).show(false);
    assert_eq!(m.get_name(), "X");
    assert_eq!(m.get_num(), 7);
    assert_eq!(m.get_hierarchy(), 3);
    assert!(!m.is_show());
    let mut m = m;
    m.get_sub_mut().push(9);
    assert_eq!(m.get_sub(), &vec![1, 2, 9]);
}

#[test]
fn pdf_size_keeps_its_values() {
    let mut s = PdfSize::new(1200, 1500, 3, 4);
    assert_eq!((s.width(), s.height(), s.x(), s.y()), (1200, 1500, 3, 4));
    s.update(7, 8);
    assert_eq!((s.width(), s.height(), s.x(), s.y()), (1200, 1500, 7, 8));
}

#[test]
fn lookup_among_equal_pages_takes_the_last() {
    let outline = vec![dest("A", page_ref(3)), dest("B", page_ref(3)), dest("C", page_ref(6))];
    let mut h = PdfHandler::new("doc.pdf", pages(8), &Some(outline)).unwrap();
    assert_eq!(h.find_book_mark_by_page_num(3), Some(1));
    assert_eq!(h.find_book_mark_by_page_num(5), Some(1));
    assert_eq!(h.find_book_mark_by_page_num(2), Some(0));
    assert_eq!(h.find_book_mark_by_page_num(u32::MAX), Some(2));
}

#[test]
fn book_mark_test() {
    let h = book();
    assert_eq!(h.get_book_marks().len(), 7);
    assert_eq!(h.get_book_marks()[0].get_name(), "Ch1");
    assert_eq!(h.get_book_marks()[6].parent, Some(5));
}

#[test]
fn nested_run_hangs_under_the_nearest_destination() {
    let outline = vec![
        dest("A", page_ref(1)),
        dest("B", page_ref(2)),
        Outline::SubOutlines(vec![dest("C", page_ref(3))]),
    ];
    let h = PdfHandler::new("doc.pdf", pages(4), &Some(outline)).unwrap();
    assert_eq!(names(&h), vec!["A", "B", "C"]);
    assert_eq!(h.get_book_marks()[2].parent, Some(1));
    assert!(h.get_book_marks()[0].get_sub().is_empty());
    assert_eq!(h.book_marks_pages, vec![0, 2]);
}
