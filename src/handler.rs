//! Key handling: what each key does in each input mode.
use vstd::prelude::*;
use crate::app::{expansion_set, next_selection, previous_selection, rows_of, selected_book_mark, App, AppState};
use crate::event::{Action, Event, KeyCode, KeyEvent};
use crate::pdf::PdfHandler;
use crate::text::{decimal, decimal_string, is_numeric, numeric, parse_u32, parsed_u32, pop_char, push_char};

verus! {

/// The key ends the reader: Esc, `q`, or Control-`c`.
pub open spec fn quits(k: KeyEvent) -> bool {
    k.code == KeyCode::Esc || k.code == KeyCode::Char('q') || ((k.code == KeyCode::Char('c') || k.code
        == KeyCode::Char('C')) && k.ctrl)
}

/// `after` is `before` with the selected bookmark's children shown or hidden.
pub open spec fn toggled(before: App, after: App, show: bool) -> bool {
    &&& selected_book_mark(before) is None ==> after == before
    &&& selected_book_mark(before) matches Some(i) ==> {
        &&& i < before.pdf_handler.book_marks@.len()
        &&& expansion_set(before.pdf_handler.book_marks@, after.pdf_handler.book_marks@, i as int, show)
        &&& after == (App {
            pdf_handler: PdfHandler { book_marks: after.pdf_handler.book_marks, ..before.pdf_handler },
            ..before
        })
    }
}

/// `after` is `before` moved to the page of the selected bookmark, if any.
pub open spec fn jumped_to_book_mark(before: App, after: App) -> bool {
    &&& selected_book_mark(before) is None ==> after == before
    &&& selected_book_mark(before) matches Some(i) ==> i < before.pdf_handler.book_marks@.len()
    &&& selected_book_mark(before) matches Some(i) ==> after == (App {
        cur_page: before.pdf_handler.book_marks@[i as int].num,
        already_render: false,
        ..before
    })
}

/// The page that a typed page number names, if it is a page of the document.
pub open spec fn typed_page(digits: Seq<char>, page_nums: usize) -> Option<u32> {
    match parsed_u32(digits) {
        Some(id) => if 0 < id && id as int <= page_nums as int {
            Some(id)
        } else {
            None
        },
        None => None,
    }
}

/// Handles a key press in the current input mode, and returns what the main
/// loop must do next.
pub fn handle_key_events(key_event: KeyEvent, app: &mut App) -> (r: Vec<Action>)
    requires
        old(app).wf(),
    ensures
        final(app).wf(),
        old(app).app_state == AppState::Normal ==> normal_key_done(key_event, *old(app), *final(app), r@),
        old(app).app_state matches AppState::Search(text) ==> search_key_done(
            key_event,
            text@,
            *old(app),
            *final(app),
            r@,
        ),
        old(app).app_state matches AppState::JumpPage(digits) ==> jump_key_done(
            key_event,
            digits@,
            *old(app),
            *final(app),
            r@,
        ),
{
    match app.app_state {
        AppState::Normal => deal_normal_key_event(key_event, app),
        AppState::Search(_) => {
            let mut text = match &app.app_state {
                AppState::Search(t) => t.clone(),
                _ => String::new(),
            };
            let r = deal_search_key_event(key_event, &mut text);
            app.app_state = AppState::Search(text);
            r
        },
        AppState::JumpPage(_) => deal_jump_page_key_event(app, key_event),
    }
}

/// A key in normal mode: `r` is what `before` becoming `after` asks for.
pub open spec fn normal_key_done(k: KeyEvent, before: App, after: App, r: Seq<Action>) -> bool {
    let c = k.code;
    if quits(k) {
        after == (App { running: false, ..before }) && r == Seq::<Action>::empty()
    } else if c == KeyCode::Char('w') || c == KeyCode::Char('W') {
        after == (App {
            book_marks_state: previous_selection(
                before.book_marks_state,
                rows_of(before.ui_book_marks),
                c == KeyCode::Char('W'),
            ),
            ..before
        }) && r == Seq::<Action>::empty()
    } else if c == KeyCode::Char('s') || c == KeyCode::Char('S') {
        after == (App {
            book_marks_state: next_selection(before.book_marks_state, rows_of(before.ui_book_marks), c == KeyCode::Char('S')),
            ..before
        }) && r == Seq::<Action>::empty()
    } else if c == KeyCode::Char('d') || c == KeyCode::Char('D') {
        toggled(before, after, true) && r == Seq::<Action>::empty()
    } else if c == KeyCode::Char('a') || c == KeyCode::Char('A') {
        toggled(before, after, false) && r == Seq::<Action>::empty()
    } else if c == KeyCode::Enter {
        jumped_to_book_mark(before, after) && r == Seq::<Action>::empty()
    } else if c == KeyCode::Down {
        after == (if (before.cur_page as int) < before.pdf_handler.page_nums as int {
            App { cur_page: (before.cur_page + 1) as u32, already_render: false, ..before }
        } else {
            before
        }) && r == Seq::<Action>::empty()
    } else if c == KeyCode::Up {
        after == (if before.cur_page > 1 {
            App { cur_page: (before.cur_page - 1) as u32, already_render: false, ..before }
        } else {
            before
        }) && r == Seq::<Action>::empty()
    } else if c == KeyCode::Char('+') {
        after == before && r == seq![Action::ZoomIn]
    } else if c == KeyCode::Char('-') {
        after == before && r == seq![Action::ZoomOut]
    } else if c == KeyCode::Char('/') {
        after == before && r.len() == 1 && (r[0] matches Action::Emit(Event::ChangeState(AppState::Search(t)))
            && t@.len() == 0)
    } else if c == KeyCode::Char('.') {
        after == before && r.len() == 1 && (r[0] matches Action::Emit(Event::ChangeState(AppState::JumpPage(t)))
            && t@ == decimal(before.cur_page as nat))
    } else {
        after == before && r == Seq::<Action>::empty()
    }
}

/// A key while typing a search: `text` is the search typed so far.
pub open spec fn search_key_done(k: KeyEvent, text: Seq<char>, before: App, after: App, r: Seq<Action>) -> bool {
    let typed = match k.code {
        KeyCode::Char(c) => text.push(c),
        KeyCode::Backspace => if text.len() > 0 {
            text.drop_last()
        } else {
            text
        },
        _ => text,
    };
    &&& after.app_state matches AppState::Search(t) && t@ == typed
    &&& after == (App { app_state: after.app_state, ..before })
    &&& r == if k.code == KeyCode::Enter || k.code == KeyCode::Esc {
        seq![Action::Emit(Event::ChangeState(AppState::Normal))]
    } else {
        Seq::<Action>::empty()
    }
}

/// A key while typing a page number: `digits` is what was typed so far.
pub open spec fn jump_key_done(k: KeyEvent, digits: Seq<char>, before: App, after: App, r: Seq<Action>) -> bool {
    match k.code {
        KeyCode::Char(c) => {
            &&& after.app_state matches AppState::JumpPage(t) && t@ == if numeric(c) {
                digits.push(c)
            } else {
                digits
            }
            &&& after == (App { app_state: after.app_state, ..before })
            &&& r == Seq::<Action>::empty()
        },
        KeyCode::Backspace => {
            &&& after.app_state matches AppState::JumpPage(t) && t@ == if digits.len() > 0 {
                digits.drop_last()
            } else {
                digits
            }
            &&& after == (App { app_state: after.app_state, ..before })
            &&& r == Seq::<Action>::empty()
        },
        KeyCode::Esc => after == before && r == seq![Action::Emit(Event::ChangeState(AppState::Normal))],
        KeyCode::Enter => match typed_page(digits, before.pdf_handler.page_nums) {
            Some(id) => after == (App { cur_page: id, ..before }) && r == seq![
                Action::Emit(Event::RenderPdf),
                Action::Emit(Event::ChangeState(AppState::Normal)),
            ],
            None => after == before && r == seq![Action::Emit(Event::ChangeState(AppState::Normal))],
        },
        _ => after == before && r == Seq::<Action>::empty(),
    }
}

/// Keys while typing a page number.
fn deal_jump_page_key_event(app: &mut App, key_event: KeyEvent) -> (r: Vec<Action>)
    requires
        old(app).wf(),
        old(app).app_state is JumpPage,
    ensures
        final(app).wf(),
        old(app).app_state matches AppState::JumpPage(digits) ==> jump_key_done(
            key_event,
            digits@,
            *old(app),
            *final(app),
            r@,
        ),
{
    let mut digits = match &app.app_state {
        AppState::JumpPage(t) => t.clone(),
        _ => String::new(),
    };
    let mut r: Vec<Action> = Vec::new();
    match key_event.code {
        KeyCode::Char(c) => {
            if is_numeric(c) {
                push_char(&mut digits, c);
            }
            app.app_state = AppState::JumpPage(digits);
        },
        KeyCode::Backspace => {
            pop_char(&mut digits);
            app.app_state = AppState::JumpPage(digits);
        },
        KeyCode::Esc => {
            r.push(Action::Emit(Event::ChangeState(AppState::Normal)));
        },
        KeyCode::Enter => {
            if let Some(id) = parse_u32(digits.as_str()) {
                if 0 < id && id as usize <= app.pdf_handler.page_nums {
                    app.cur_page = id;
                    r.push(Action::Emit(Event::RenderPdf));
                }
            }
            r.push(Action::Emit(Event::ChangeState(AppState::Normal)));
            proof {
                if typed_page(digits@, app.pdf_handler.page_nums) is Some {
                    assert(r@ =~= seq![
                        Action::Emit(Event::RenderPdf),
                        Action::Emit(Event::ChangeState(AppState::Normal)),
                    ]);
                } else {
                    assert(r@ =~= seq![Action::Emit(Event::ChangeState(AppState::Normal))]);
                }
            }
        },
        _ => {},
    }
    r
}

/// Keys in normal mode.
fn deal_normal_key_event(key_event: KeyEvent, app: &mut App) -> (r: Vec<Action>)
    requires
        old(app).wf(),
    ensures
        final(app).wf(),
        normal_key_done(key_event, *old(app), *final(app), r@),
{
    let mut r: Vec<Action> = Vec::new();
    match key_event.code {
        KeyCode::Esc | KeyCode::Char('q') => app.quit(),
        KeyCode::Char('c') | KeyCode::Char('C') => {
            if key_event.ctrl {
                app.quit();
            }
        },
        KeyCode::Char('w') => app.book_marks_previous(false),
        KeyCode::Char('W') => app.book_marks_previous(true),
        KeyCode::Char('s') => app.book_marks_next(false),
        KeyCode::Char('S') => app.book_marks_next(true),
        KeyCode::Char('d') | KeyCode::Char('D') => app.toggle_bookmark_expansion(true),
        KeyCode::Char('a') | KeyCode::Char('A') => app.toggle_bookmark_expansion(false),
        KeyCode::Enter => app.jump_to_book_mark_page(),
        KeyCode::Down => app.next_page(),
        KeyCode::Up => app.previous_page(),
        KeyCode::Char('+') => r.push(Action::ZoomIn),
        KeyCode::Char('-') => r.push(Action::ZoomOut),
        KeyCode::Char('/') => r.push(Action::Emit(Event::ChangeState(AppState::Search(String::new())))),
        KeyCode::Char('.') => {
            let digits = decimal_string(app.cur_page as u64);
            r.push(Action::Emit(Event::ChangeState(AppState::JumpPage(digits))));
        },
        _ => {},
    }
    r
}

/// Keys while typing a search: the text is edited, Enter and Esc go back to
/// normal mode.
fn deal_search_key_event(key_event: KeyEvent, text: &mut String) -> (r: Vec<Action>)
    ensures
        final(text)@ == match key_event.code {
            KeyCode::Char(c) => old(text)@.push(c),
            KeyCode::Backspace => if old(text)@.len() > 0 {
                old(text)@.drop_last()
            } else {
                old(text)@
            },
            _ => old(text)@,
        },
        r@ == if key_event.code == KeyCode::Enter || key_event.code == KeyCode::Esc {
            seq![Action::Emit(Event::ChangeState(AppState::Normal))]
        } else {
            Seq::<Action>::empty()
        },
{
    let mut r: Vec<Action> = Vec::new();
    match key_event.code {
        KeyCode::Enter | KeyCode::Esc => {
            r.push(Action::Emit(Event::ChangeState(AppState::Normal)));
        },
        KeyCode::Char(c) => push_char(text, c),
        KeyCode::Backspace => {
            pop_char(text);
        },
        _ => {},
    }
    r
}

} // verus!
