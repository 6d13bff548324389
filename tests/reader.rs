use pdf_terminal_reader::app::{App, AppState};
use pdf_terminal_reader::cache::{FileCache, PageState};
use pdf_terminal_reader::event::{Action, Event, KeyCode, KeyEvent};
use pdf_terminal_reader::handler::handle_key_events;
use pdf_terminal_reader::pdf::{Destination, ObjectId, Outline, PdfHandler, PdfSize};

fn pages(n: u32) -> Vec<ObjectId> {
    (1..=n).map(|i| (100 + i, 0)).collect()
}

fn dest(title: &str, page: u32) -> Outline {
    Outline::Destination(Destination { title: Some(title.as_bytes().to_vec()), page: Some((100 + page, 0)) })
}

fn reader(outline: Option<Vec<Outline>>, n: u32, last_page: u32) -> App {
    let h = PdfHandler::new("/books/rust.pdf", pages(n), &outline).unwrap();
    let cache = FileCache::new("/books/rust-rpr".to_string(), &vec![]);
    App::new(h, cache, last_page)
}

fn key(c: KeyCode) -> Event {
    Event::Key(KeyEvent { code: c, ctrl: false })
}

fn emit(e: Event) -> Action {
    Action::Emit(e)
}

/// Ch1 (1) [Ch1.1 (2)], Ch2 (5)
fn scenario_b() -> App {
    reader(
        Some(vec![dest("Ch1", 1), Outline::SubOutlines(vec![dest("Ch1.1", 2)]), dest("Ch2", 5)]),
        10,
        1,
    )
}

#[test]
fn new_reader_state() {
    let app = reader(None, 10, 4);
    assert!(app.running);
    assert_eq!(app.cur_page, 4);
    assert_eq!(app.next_load_page, 2);
    assert!(app.loading && !app.already_render);
    assert_eq!(app.pdf_size, PdfSize::new(1200, 1500, 0, 0));
    assert_eq!(app.app_state, AppState::Normal);
    assert_eq!(reader(None, 10, 0).cur_page, 1);
    assert_eq!(reader(None, 10, 11).cur_page, 1);
}

#[test]
fn page_navigation_stays_in_the_document() {
    let mut app = reader(None, 10, 1);
    app.previous_page();
    assert_eq!(app.cur_page, 1);
    for _ in 0..20 {
        app.next_page();
    }
    assert_eq!(app.cur_page, 10);
    app.already_render = true;
    app.next_page();
    assert_eq!(app.cur_page, 10);
    assert!(app.already_render);
    app.previous_page();
    assert_eq!(app.cur_page, 9);
    assert!(!app.already_render);
}

#[test]
fn document_without_outline() {
    let mut app = reader(None, 10, 1);
    assert!(app.pdf_handler.book_marks_pages.is_empty());
    assert_eq!(app.pdf_handler.find_book_mark_by_page_num(3), None);
    app.handle_event(key(KeyCode::Down));
    app.handle_event(key(KeyCode::Down));
    assert_eq!(app.cur_page, 3);
    for _ in 0..5 {
        app.handle_event(key(KeyCode::Up));
    }
    assert_eq!(app.cur_page, 1);
    // moving in an empty table of contents does nothing harmful
    app.update_book_mark_rows();
    app.handle_event(key(KeyCode::Char('s')));
    app.handle_event(key(KeyCode::Char('s')));
    app.handle_event(key(KeyCode::Char('S')));
    app.handle_event(key(KeyCode::Enter));
    app.handle_event(key(KeyCode::Char('d')));
    assert_eq!(app.book_marks_state, Some(0));
    assert_eq!(app.cur_page, 1);
}

#[test]
fn sibling_skip_jumps_between_top_level_rows() {
    let mut app = scenario_b();
    app.update_book_mark_rows();
    app.handle_event(key(KeyCode::Char('s')));
    app.handle_event(key(KeyCode::Char('d')));
    app.update_book_mark_rows();
    let rows: Vec<Vec<usize>> =
        app.ui_book_marks.as_ref().unwrap().iter().map(|r| r.inner.clone()).collect();
    assert_eq!(rows, vec![vec![0], vec![0, 0], vec![1]]);
    assert_eq!(app.book_marks_state, Some(0));
    app.handle_event(key(KeyCode::Char('S')));
    assert_eq!(app.book_marks_state, Some(2));
    app.handle_event(key(KeyCode::Enter));
    assert_eq!(app.cur_page, 5);
    app.handle_event(key(KeyCode::Char('W')));
    assert_eq!(app.book_marks_state, Some(0));
    app.handle_event(key(KeyCode::Enter));
    assert_eq!(app.cur_page, 1);
    // without the skip the nested row is reached
    app.handle_event(key(KeyCode::Char('s')));
    assert_eq!(app.book_marks_state, Some(1));
    app.handle_event(key(KeyCode::Enter));
    assert_eq!(app.cur_page, 2);
    app.handle_event(key(KeyCode::Char('w')));
    assert_eq!(app.book_marks_state, Some(0));
    app.handle_event(key(KeyCode::Char('w')));
    assert_eq!(app.book_marks_state, Some(0));
}

#[test]
fn sibling_skip_from_a_nested_row() {
    let mut app = scenario_b();
    app.pdf_handler.set_expansion(0, true);
    app.update_book_mark_rows();
    app.book_marks_state = Some(1);
    app.book_marks_next(true);
    assert_eq!(app.book_marks_state, Some(2));
    app.book_marks_state = Some(1);
    app.book_marks_previous(true);
    assert_eq!(app.book_marks_state, Some(0));
    assert_eq!(app.get_current_book_mark_index().unwrap().inner, vec![0]);
}

#[test]
fn collapse_hides_children() {
    let mut app = scenario_b();
    app.update_book_mark_rows();
    app.book_marks_state = Some(0);
    app.toggle_bookmark_expansion(true);
    app.update_book_mark_rows();
    assert_eq!(app.ui_book_marks.as_ref().unwrap().len(), 3);
    app.toggle_bookmark_expansion(false);
    app.update_book_mark_rows();
    assert_eq!(app.ui_book_marks.as_ref().unwrap().len(), 2);
}

#[test]
fn request_of_uncached_page_queues_it_first_and_converts_it() {
    let mut app = reader(None, 20, 7);
    for p in 1..=6 {
        app.page_cache.cache.insert(p, PageState::Ready);
    }
    app.next_load_page = 8;
    assert_eq!(app.handle_event(Event::RenderPdf), vec![emit(Event::LoadingFirst(7))]);
    assert_eq!(app.handle_event(Event::LoadingFirst(7)), vec![emit(Event::LoadingNext)]);
    assert_eq!(app.page_cache.page_queue, vec![7]);
    assert_eq!(app.handle_event(Event::LoadingNext), vec![Action::Convert(7)]);
    assert_eq!(app.page_cache.page_queue, vec![8]);
    assert_eq!(app.next_load_page, 9);
}

#[test]
fn failed_conversion_is_requested_again() {
    let mut app = reader(None, 10, 3);
    app.handle_event(Event::LoadingFirst(3));
    assert_eq!(app.handle_event(Event::LoadingNext), vec![Action::Convert(3)]);
    assert_eq!(app.handle_event(Event::ConversionFailed(3)), vec![]);
    assert!(!app.page_cache.page_exists(3));
    assert_eq!(app.handle_event(Event::RenderPdf), vec![emit(Event::LoadingFirst(3))]);
    app.handle_event(Event::LoadingFirst(3));
    assert_eq!(app.page_cache.page_queue[0], 3);
    assert_eq!(app.handle_event(Event::LoadingNext), vec![Action::Convert(3)]);
}

#[test]
fn two_requests_give_one_conversion() {
    let mut app = reader(None, 10, 4);
    let mut converted = Vec::new();
    app.handle_event(Event::LoadingFirst(4));
    app.handle_event(Event::LoadingFirst(4));
    for _ in 0..4 {
        for a in app.handle_event(Event::LoadingNext) {
            if let Action::Convert(p) = a {
                converted.push(p);
            }
        }
    }
    assert_eq!(converted.iter().filter(|p| **p == 4).count(), 1);
    assert_eq!(converted, vec![4, 2, 3]);
}

#[test]
fn request_goes_ahead_of_read_ahead_pages() {
    let mut app = reader(None, 10, 1);
    app.page_cache.page_queue = vec![2, 3];
    app.handle_event(Event::LoadingFirst(9));
    assert_eq!(app.page_cache.page_queue, vec![9, 2, 3]);
}

#[test]
fn ready_page_stays_ready() {
    let mut app = reader(None, 10, 2);
    app.handle_event(Event::LoadingFirst(2));
    app.handle_event(Event::LoadingNext);
    assert_eq!(app.handle_event(Event::PageConverted(2)), vec![emit(Event::RenderPdf)]);
    let events = vec![
        Event::ConversionFailed(2),
        Event::LoadingFirst(2),
        Event::LoadingNext,
        Event::LoadingNext,
        Event::PageConverted(3),
        Event::ConversionFailed(2),
        Event::RenderPdf,
    ];
    for e in events {
        app.handle_event(e);
        assert!(app.page_cache.page_exists(2));
    }
    assert_eq!(app.handle_event(Event::RenderPdf), vec![Action::Show(2)]);
}

#[test]
fn shown_page_continues_read_ahead() {
    let mut app = reader(None, 3, 1);
    assert_eq!(app.page_shown(), Some(Event::LoadingNext));
    assert!(!app.loading);
    app.next_load_page = 4;
    assert_eq!(app.page_shown(), None);
    assert_eq!(app.page_read_failed(true), Some(Event::LoadingFirst(1)));
    assert_eq!(app.page_read_failed(false), None);
    assert_eq!(app.handle_event(Event::LoadingNext), vec![]);
    assert_eq!(app.next_load_page, 4);
}

#[test]
fn first_draw_asks_for_the_page() {
    let mut app = reader(None, 10, 5);
    assert_eq!(app.render_pdf(3, 4), Some(Event::LoadingFirst(5)));
    assert!(app.already_render && app.loading);
    assert_eq!((app.pdf_size.x(), app.pdf_size.y()), (3, 4));
    assert_eq!(app.render_pdf(3, 4), None);
    app.set_pdf_size(1320, 1650);
    assert!(!app.already_render);
    assert_eq!((app.pdf_size.width(), app.pdf_size.height()), (1320, 1650));
}

#[test]
fn jump_to_a_typed_page() {
    let mut app = reader(None, 10, 5);
    let r = app.handle_event(key(KeyCode::Char('.')));
    assert_eq!(r, vec![emit(Event::ChangeState(AppState::JumpPage("5".to_string())))]);
    app.handle_event(Event::ChangeState(AppState::JumpPage("5".to_string())));
    app.handle_event(key(KeyCode::Backspace));
    app.handle_event(key(KeyCode::Char('x')));
    app.handle_event(key(KeyCode::Char('8')));
    assert_eq!(app.app_state, AppState::JumpPage("8".to_string()));
    let r = app.handle_event(key(KeyCode::Enter));
    assert_eq!(r, vec![emit(Event::RenderPdf), emit(Event::ChangeState(AppState::Normal))]);
    assert_eq!(app.cur_page, 8);
}

#[test]
fn jump_to_a_page_past_the_end_is_ignored() {
    let mut app = reader(None, 10, 5);
    app.app_state = AppState::JumpPage("11".to_string());
    assert_eq!(app.handle_event(key(KeyCode::Enter)), vec![emit(Event::ChangeState(AppState::Normal))]);
    assert_eq!(app.cur_page, 5);
    app.app_state = AppState::JumpPage("0".to_string());
    app.handle_event(key(KeyCode::Enter));
    assert_eq!(app.cur_page, 5);
    app.app_state = AppState::JumpPage(String::new());
    assert_eq!(app.handle_event(key(KeyCode::Esc)), vec![emit(Event::ChangeState(AppState::Normal))]);
}

#[test]
fn search_text_is_edited() {
    let mut app = reader(None, 10, 1);
    let r = app.handle_event(key(KeyCode::Char('/')));
    assert_eq!(r, vec![emit(Event::ChangeState(AppState::Search(String::new())))]);
    app.handle_event(Event::ChangeState(AppState::Search(String::new())));
    app.handle_event(key(KeyCode::Char('a')));
    app.handle_event(key(KeyCode::Char('b')));
    app.handle_event(key(KeyCode::Backspace));
    app.handle_event(key(KeyCode::Char('c')));
    assert_eq!(app.app_state, AppState::Search("ac".to_string()));
    assert_eq!(app.handle_event(key(KeyCode::Enter)), vec![emit(Event::ChangeState(AppState::Normal))]);
}

#[test]
fn quit_keys() {
    let mut app = reader(None, 10, 1);
    app.handle_event(key(KeyCode::Char('c')));
    assert!(app.running);
    handle_key_events(KeyEvent { code: KeyCode::Char('c'), ctrl: true }, &mut app);
    assert!(!app.running);
    let mut app = reader(None, 10, 1);
    app.handle_event(key(KeyCode::Char('q')));
    assert!(!app.running);
    let mut app = reader(None, 10, 1);
    app.quit();
    assert!(!app.running);
}

#[test]
fn zoom_keys_ask_the_main_loop() {
    let mut app = reader(None, 10, 1);
    assert_eq!(app.handle_event(key(KeyCode::Char('+'))), vec![Action::ZoomIn]);
    assert_eq!(app.handle_event(key(KeyCode::Char('-'))), vec![Action::ZoomOut]);
    assert_eq!(app.handle_event(Event::Tick), vec![]);
    assert_eq!(app.handle_event(Event::Resize(80, 24)), vec![]);
}
