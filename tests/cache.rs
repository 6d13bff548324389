use pdf_terminal_reader::cache::{FileCache, PageState, Prefetch};
use pdf_terminal_reader::event::Event;
use std::collections::HashMap;

fn empty_cache() -> FileCache {
    FileCache::new("/books/rust-rpr".to_string(), &vec![])
}

#[test]
fn cache_directory_sits_beside_the_document() {
    assert_eq!(FileCache::cache_dir("/books/rust.pdf"), Some("/books/rust-rpr".to_string()));
    assert_eq!(FileCache::cache_dir("notes.v2.pdf"), Some("notes.v2-rpr".to_string()));
    assert_eq!(FileCache::cache_dir("/"), None);
}

#[test]
fn page_files_are_numbered_jpegs() {
    let c = empty_cache();
    assert_eq!(c.get_page_path(7), "/books/rust-rpr/7.jpeg");
    assert_eq!(c.get_page_path(120), "/books/rust-rpr/120.jpeg");
    assert_eq!(c.get_page_path(0), "/books/rust-rpr/0.jpeg");
}

#[test]
fn existing_numbered_files_are_adopted() {
    let entries: Vec<String> =
        vec!["3.jpeg", "cover.jpeg", "12.jpeg", "/books/rust-rpr/5.jpeg", "-1.jpeg", "+4.jpeg"]
            .into_iter()
            .map(String::from)
            .collect();
    let map = FileCache::init_page_cache(&entries);
    let mut expected = HashMap::new();
    for p in [3u32, 12, 5, 4] {
        expected.insert(p, PageState::Ready);
    }
    assert_eq!(map, expected);
    let c = FileCache::new("/books/rust-rpr".to_string(), &entries);
    assert!(c.page_exists(3) && c.page_exists(12) && c.page_exists(5));
    assert!(!c.page_exists(1));
    assert!(c.page_queue.is_empty());
}

#[test]
fn requested_page_goes_first() {
    let mut c = empty_cache();
    c.page_queue = vec![4, 5];
    assert_eq!(c.add_first(9), Event::LoadingNext);
    assert_eq!(c.page_queue, vec![9, 4, 5]);
}

#[test]
fn requested_ready_page_is_rendered() {
    let mut c = empty_cache();
    c.cache.insert(9, PageState::Ready);
    c.page_queue = vec![4];
    assert_eq!(c.add_first(9), Event::RenderPdf);
    assert_eq!(c.page_queue, vec![4]);
}

#[test]
fn prefetch_reserves_then_appends_read_ahead() {
    let mut c = empty_cache();
    c.page_queue = vec![7];
    assert_eq!(c.load_next_page(Some(8)), Prefetch::Convert(7));
    assert_eq!(c.cache.get(&7), Some(&PageState::Reserved));
    assert_eq!(c.page_queue, vec![8]);
    assert!(!c.page_exists(7));
}

#[test]
fn prefetch_on_empty_queue_only_appends() {
    let mut c = empty_cache();
    assert_eq!(c.load_next_page(Some(2)), Prefetch::Idle);
    assert_eq!(c.page_queue, vec![2]);
    assert_eq!(c.load_next_page(None), Prefetch::Convert(2));
    assert!(c.page_queue.is_empty());
}

#[test]
fn prefetch_of_converting_or_ready_page() {
    let mut c = empty_cache();
    c.cache.insert(3, PageState::Reserved);
    c.cache.insert(4, PageState::Ready);
    c.page_queue = vec![3, 4];
    assert_eq!(c.load_next_page(None), Prefetch::Idle);
    assert_eq!(c.load_next_page(None), Prefetch::Render);
    assert_eq!(c.cache.get(&3), Some(&PageState::Reserved));
}

#[test]
fn completed_conversion_makes_page_ready() {
    let mut c = empty_cache();
    c.page_queue = vec![5];
    c.load_next_page(None);
    assert_eq!(c.page_converted(5), Event::RenderPdf);
    assert!(c.page_exists(5));
}

#[test]
fn failed_conversion_frees_the_page() {
    let mut c = empty_cache();
    c.page_queue = vec![5];
    c.load_next_page(None);
    c.conversion_failed(5);
    assert!(!c.cache.contains_key(&5));
    c.cache.insert(6, PageState::Ready);
    c.conversion_failed(6);
    assert!(c.page_exists(6));
}

#[test]
fn convert_decision_follows_page_state() {
    let mut c = empty_cache();
    assert_eq!(c.convert_pdf_to_ppm(2), Prefetch::Convert(2));
    assert_eq!(c.convert_pdf_to_ppm(2), Prefetch::Idle);
    c.page_converted(2);
    assert_eq!(c.convert_pdf_to_ppm(2), Prefetch::Render);
}

#[test]
fn requested_queued_page_moves_to_the_front_once() {
    let mut c = empty_cache();
    c.page_queue = vec![4, 9, 5];
    assert_eq!(c.add_first(9), Event::LoadingNext);
    assert_eq!(c.page_queue, vec![9, 4, 5]);
    assert_eq!(c.add_first(9), Event::LoadingNext);
    assert_eq!(c.page_queue, vec![9, 4, 5]);
}

#[test]
fn read_ahead_skips_ready_and_queued_pages() {
    let mut c = empty_cache();
    c.cache.insert(8, PageState::Ready);
    c.page_queue = vec![7, 3];
    assert_eq!(c.load_next_page(Some(8)), Prefetch::Convert(7));
    assert_eq!(c.page_queue, vec![3]);
    assert_eq!(c.load_next_page(Some(3)), Prefetch::Convert(3));
    assert_eq!(c.page_queue, vec![3]);
    c.page_queue = vec![2, 6];
    assert_eq!(c.load_next_page(Some(6)), Prefetch::Convert(2));
    assert_eq!(c.page_queue, vec![6]);
}
