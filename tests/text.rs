use pdf_terminal_reader::app::{App, AppState};
use pdf_terminal_reader::cache::FileCache;
use pdf_terminal_reader::decode::{accept_decoded, decode_str_to_utf8, DecodeError};
use pdf_terminal_reader::event::{Action, Event, KeyCode, KeyEvent};
use pdf_terminal_reader::pdf::{ObjectId, PdfHandler};
use pdf_terminal_reader::text::signed_decimal_string;

fn reader(n: u32, page: u32) -> App {
    let pages: Vec<ObjectId> = (1..=n).map(|i| (i, 0)).collect();
    let h = PdfHandler::new("/books/rust.pdf", pages, &None).unwrap();
    App::new(h, FileCache::new("/books/rust-rpr".to_string(), &vec![]), page)
}

fn typed(app: &mut App, c: KeyCode) {
    app.handle_event(Event::Key(KeyEvent { code: c, ctrl: false }));
}

fn jump_with(text: &str) -> u32 {
    let mut app = reader(100, 9);
    app.app_state = AppState::JumpPage(text.to_string());
    typed(&mut app, KeyCode::Enter);
    app.cur_page
}

#[test]
fn decimal_digits_of_page_numbers() {
    let c = FileCache::new("d".to_string(), &vec![]);
    assert_eq!(c.get_page_path(4294967295), "d/4294967295.jpeg");
    let mut app = reader(100, 42);
    let r = app.handle_event(Event::Key(KeyEvent { code: KeyCode::Char('.'), ctrl: false }));
    assert_eq!(r, vec![Action::Emit(Event::ChangeState(AppState::JumpPage("42".to_string())))]);
}

#[test]
fn signed_decimal_strings() {
    assert_eq!(signed_decimal_string(-1500), "-1500");
    assert_eq!(signed_decimal_string(i32::MIN), "-2147483648");
    assert_eq!(signed_decimal_string(0), "0");
}

#[test]
fn typed_page_numbers_are_parsed() {
    assert_eq!(jump_with("17"), 17);
    assert_eq!(jump_with("+17"), 17);
    assert_eq!(jump_with("007"), 7);
    assert_eq!(jump_with(""), 9);
    assert_eq!(jump_with("+"), 9);
    assert_eq!(jump_with("4294967296"), 9);
    assert_eq!(jump_with("٣"), 9);
}

#[test]
fn typed_text_is_edited() {
    let mut app = reader(10, 1);
    app.app_state = AppState::JumpPage(String::new());
    typed(&mut app, KeyCode::Char('1'));
    typed(&mut app, KeyCode::Char('٣'));
    typed(&mut app, KeyCode::Char('x'));
    assert_eq!(app.app_state, AppState::JumpPage("1٣".to_string()));
    typed(&mut app, KeyCode::Backspace);
    typed(&mut app, KeyCode::Backspace);
    typed(&mut app, KeyCode::Backspace);
    assert_eq!(app.app_state, AppState::JumpPage(String::new()));
}

#[test]
fn path_parts() {
    assert_eq!(FileCache::cache_dir("/a/b/book.pdf"), Some("/a/b/book-rpr".to_string()));
    assert_eq!(FileCache::cache_dir("book.pdf"), Some("book-rpr".to_string()));
    assert_eq!(FileCache::cache_dir("/a/b/.pdf"), Some("/a/b/.pdf-rpr".to_string()));
    let h = PdfHandler::new("/a/b/archive.tar.pdf", vec![], &None).unwrap();
    assert_eq!(h.get_title(), "archive.tar");
}

#[test]
fn decoding_titles() {
    assert_eq!(decode_str_to_utf8(b"Preface"), Ok("Preface".to_string()));
    assert_eq!(decode_str_to_utf8("Überblick".as_bytes()), Ok("Überblick".to_string()));
    // "Café" in windows-1252
    assert_eq!(decode_str_to_utf8(&[0x43, 0x61, 0x66, 0xE9]), Ok("Café".to_string()));
}

#[test]
fn decoding_outcomes() {
    assert_eq!(accept_decoded("x".to_string(), false), Ok("x".to_string()));
    assert_eq!(accept_decoded("x\u{FFFD}".to_string(), true), Err(DecodeError));
}
