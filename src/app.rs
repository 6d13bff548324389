//! The reader's state and the decisions it takes on each event.
use vstd::prelude::*;
use crate::cache::{
    after_converted, after_failed, after_load_requested, after_prefetch, is_ready, prefetch_outcome, step, CacheInput, CacheModel,
    FileCache, Prefetch,
};
use crate::event::{Action, Event};
use crate::handler::{handle_key_events, jump_key_done, normal_key_done, search_key_done};
use crate::navigation::{listed_paths, node_at, paths_view, same_shape};
use crate::pdf::{BookMark, BookMarkIndex, PdfHandler, PdfSize};

verus! {

/// The input mode.
#[derive(Debug, Clone, PartialEq, Eq)]
pub enum AppState {
    Normal,
    /// Typing a search; the text typed so far.
    Search(String),
    /// Typing a page number; the digits typed so far.
    JumpPage(String),
}

/// The whole state of the reader.
pub struct App {
    /// Whether the main loop goes on.
    pub running: bool,
    pub pdf_handler: PdfHandler,
    /// The selected row of the table of contents.
    pub book_marks_state: Option<usize>,
    /// The rows of the table of contents as last listed.
    pub ui_book_marks: Option<Vec<BookMarkIndex>>,
    /// The page shown, from 1.
    pub cur_page: u32,
    /// Whether the current page has been asked for since it last changed.
    pub already_render: bool,
    /// Whether the current page is still being waited for.
    pub loading: bool,
    pub page_cache: FileCache,
    pub pdf_size: PdfSize,
    /// The next page to queue for read-ahead.
    pub next_load_page: u32,
    pub app_state: AppState,
}

/// The paths of the rows, or no rows when none were listed yet.
pub open spec fn rows_of(rows: Option<Vec<BookMarkIndex>>) -> Seq<BookMarkIndex> {
    match rows {
        Some(v) => v@,
        None => Seq::empty(),
    }
}

/// A move of `shift` kind stops at a row of depth `depth` when coming from a
/// row of depth `origin`: the row is shallower, or both are top-level rows.
pub open spec fn stops_at(depth: int, origin: int) -> bool {
    depth < origin || (depth == 1 && origin == 1)
}

/// Moving up from row `i` to the nearest row where `stops_at` holds, or to the
/// first row.
pub open spec fn skip_up(rows: Seq<BookMarkIndex>, origin: int, i: int) -> int
    decreases i,
{
    if i <= 0 {
        0
    } else if stops_at(rows[i - 1]@.len() as int, origin) {
        i - 1
    } else {
        skip_up(rows, origin, i - 1)
    }
}

/// Moving down from row `i` to the nearest row where `stops_at` holds, or to
/// the last row.
pub open spec fn skip_down(rows: Seq<BookMarkIndex>, origin: int, i: int) -> int
    decreases rows.len() - i,
{
    if i + 1 >= rows.len() {
        i
    } else if stops_at(rows[i + 1]@.len() as int, origin) {
        i + 1
    } else {
        skip_down(rows, origin, i + 1)
    }
}

/// The selection after moving up: to row 0 when nothing was selected; with
/// `shift`, past the rows nested deeper than the selected one; else by one row.
pub open spec fn previous_selection(sel: Option<usize>, rows: Seq<BookMarkIndex>, shift: bool) -> Option<usize> {
    match sel {
        None => Some(0),
        Some(i) => if shift && i < rows.len() {
            Some(skip_up(rows, rows[i as int]@.len() as int, i as int) as usize)
        } else if i > 0 {
            Some((i - 1) as usize)
        } else {
            Some(i)
        },
    }
}

/// The selection after moving down, the mirror of `previous_selection`.
pub open spec fn next_selection(sel: Option<usize>, rows: Seq<BookMarkIndex>, shift: bool) -> Option<usize> {
    match sel {
        None => Some(0),
        Some(i) => if shift && i < rows.len() {
            Some(skip_down(rows, rows[i as int]@.len() as int, i as int) as usize)
        } else if i + 1 < rows.len() {
            Some((i + 1) as usize)
        } else {
            Some(i)
        },
    }
}

/// The bookmark of the selected row, if the selection names a row that
/// leads to a bookmark.
pub open spec fn selected_book_mark(app: App) -> Option<usize> {
    match app.book_marks_state {
        Some(i) => if i < rows_of(app.ui_book_marks).len() {
            node_at(app.pdf_handler.book_marks@, app.pdf_handler.roots@, rows_of(app.ui_book_marks)[i as int]@)
        } else {
            None
        },
        None => None,
    }
}

/// `after` is `before` with the children of bookmark `i` shown or hidden as
/// `show` says (nothing changes for a bookmark without children).
pub open spec fn expansion_set(before: Seq<BookMark>, after: Seq<BookMark>, i: int, show: bool) -> bool {
    &&& after.len() == before.len()
    &&& forall|x: int| 0 <= x < before.len() ==> same_shape(#[trigger] before[x], after[x])
    &&& before[i].sub@.len() == 0 ==> after == before
    &&& before[i].sub@.len() > 0 ==> {
        &&& forall|x: int|
            0 <= x < before.len() ==> #[trigger] after[x].sub_show == if x == i {
                show
            } else {
                before[x].sub_show
            }
        &&& forall|x: int|
            0 <= x < before.len() ==> #[trigger] after[x].show == if before[i].sub@.contains(x as usize) {
                show
            } else {
                before[x].show
            }
    }
}

/// The page to open on: the last page read when it is a page of the
/// document, else the first page.
pub open spec fn start_page(last_page: u32, page_nums: usize) -> u32 {
    if 1 <= last_page && last_page as int <= page_nums as int {
        last_page
    } else {
        1
    }
}

impl App {
    pub open spec fn wf(&self) -> bool {
        self.pdf_handler.wf()
    }

    /// A reader on `pdf_handler`'s document with page cache `page_cache`,
    /// opened on `last_page` when that is a page of the document.
    pub fn new(pdf_handler: PdfHandler, page_cache: FileCache, last_page: u32) -> (r: App)
        requires
            pdf_handler.wf(),
        ensures
            r.wf(),
            r.running,
            r.pdf_handler == pdf_handler,
            r.page_cache == page_cache,
            r.book_marks_state is None,
            r.ui_book_marks is None,
            r.cur_page == start_page(last_page, pdf_handler.page_nums),
            !r.already_render,
            r.loading,
            r.pdf_size == (PdfSize { x: 0, y: 0, width: 1200, height: 1500 }),
            r.next_load_page == 2,
            r.app_state == AppState::Normal,
    {
        let cur_page = if 1 <= last_page && last_page as usize <= pdf_handler.page_nums {
            last_page
        } else {
            1
        };
        App {
            running: true,
            pdf_handler,
            book_marks_state: None,
            ui_book_marks: None,
            cur_page,
            already_render: false,
            loading: true,
            page_cache,
            pdf_size: PdfSize::new(1200, 1500, 0, 0),
            next_load_page: 2,
            app_state: AppState::Normal,
        }
    }

    /// Handles the tick event of the terminal: nothing to do.
    pub fn tick(&mut self)
        ensures
            *final(self) == *old(self),
    {
    }

    /// Ends the main loop.
    pub fn quit(&mut self)
        ensures
            *final(self) == (App { running: false, ..*old(self) }),
    {
        self.running = false;
    }

    /// Moves the selection up (see `previous_selection`).
    pub fn book_marks_previous(&mut self, is_shift: bool)
        ensures
            *final(self) == (App {
                book_marks_state: previous_selection(
                    old(self).book_marks_state,
                    rows_of(old(self).ui_book_marks),
                    is_shift,
                ),
                ..*old(self)
            }),
    {
        let selected = match self.book_marks_state {
            None => Some(0),
            Some(index) => {
                let n = match &self.ui_book_marks {
                    Some(rows) => rows.len(),
                    None => 0,
                };
                if is_shift && index < n {
                    Some(skip_rows_up(&self.ui_book_marks, index))
                } else if index > 0 {
                    Some(index - 1)
                } else {
                    Some(index)
                }
            },
        };
        self.book_marks_state = selected;
    }

    /// Moves the selection down (see `next_selection`).
    pub fn book_marks_next(&mut self, is_shift: bool)
        ensures
            *final(self) == (App {
                book_marks_state: next_selection(old(self).book_marks_state, rows_of(old(self).ui_book_marks), is_shift),
                ..*old(self)
            }),
    {
        let selected = match self.book_marks_state {
            None => Some(0),
            Some(index) => {
                let n = match &self.ui_book_marks {
                    Some(rows) => rows.len(),
                    None => 0,
                };
                if is_shift && index < n {
                    Some(skip_rows_down(&self.ui_book_marks, index))
                } else if n > 0 && index < n - 1 {
                    Some(index + 1)
                } else {
                    Some(index)
                }
            },
        };
        self.book_marks_state = selected;
    }

    /// Shows (`show`) or hides the children of the selected bookmark.
    pub fn toggle_bookmark_expansion(&mut self, show: bool)
        requires
            old(self).wf(),
        ensures
            final(self).wf(),
            selected_book_mark(*old(self)) is None ==> *final(self) == *old(self),
            selected_book_mark(*old(self)) matches Some(i) ==> {
                &&& i < old(self).pdf_handler.book_marks@.len()
                &&& expansion_set(
                    old(self).pdf_handler.book_marks@,
                    final(self).pdf_handler.book_marks@,
                    i as int,
                    show,
                )
                &&& *final(self) == (App {
                    pdf_handler: PdfHandler { book_marks: final(self).pdf_handler.book_marks, ..old(self).pdf_handler },
                    ..*old(self)
                })
            },
    {
        match self.selected_node() {
            Some(i) => {
                self.pdf_handler.set_expansion(i, show);
            },
            None => {},
        }
    }

    /// Goes to the page of the selected bookmark.
    pub fn jump_to_book_mark_page(&mut self)
        requires
            old(self).wf(),
        ensures
            selected_book_mark(*old(self)) is None ==> *final(self) == *old(self),
            selected_book_mark(*old(self)) matches Some(i) ==> i < old(self).pdf_handler.book_marks@.len(),
            selected_book_mark(*old(self)) matches Some(i) ==> *final(self) == (App {
                cur_page: old(self).pdf_handler.book_marks@[i as int].num,
                already_render: false,
                ..*old(self)
            }),
    {
        match self.selected_node() {
            Some(i) => {
                self.cur_page = self.pdf_handler.book_marks[i].num;
                self.already_render = false;
            },
            None => {},
        }
    }

    /// The bookmark of the selected row.
    fn selected_node(&self) -> (r: Option<usize>)
        requires
            self.wf(),
        ensures
            r == selected_book_mark(*self),
            r matches Some(i) ==> i < self.pdf_handler.book_marks@.len(),
    {
        match self.book_marks_state {
            Some(index) => match &self.ui_book_marks {
                Some(rows) => if index < rows.len() {
                    self.pdf_handler.find_book_mark(&rows[index])
                } else {
                    None
                },
                None => None,
            },
            None => None,
        }
    }

    /// The path of the selected row.
    pub fn get_current_book_mark_index(&self) -> (r: Option<BookMarkIndex>)
        ensures
            r is Some <==> (self.book_marks_state matches Some(i) && self.ui_book_marks is Some && i < rows_of(
                self.ui_book_marks,
            ).len()),
            r matches Some(p) ==> p@ == rows_of(self.ui_book_marks)[self.book_marks_state->0 as int]@,
    {
        match self.book_marks_state {
            Some(index) => match &self.ui_book_marks {
                Some(rows) => if index < rows.len() {
                    Some(rows[index].clone_index())
                } else {
                    None
                },
                None => None,
            },
            None => None,
        }
    }

    /// Goes one page forward, unless on the last page.
    pub fn next_page(&mut self)
        requires
            old(self).wf(),
        ensures
            (old(self).cur_page as int) < old(self).pdf_handler.page_nums as int ==> *final(self) == (App {
                cur_page: (old(self).cur_page + 1) as u32,
                already_render: false,
                ..*old(self)
            }),
            old(self).cur_page as int >= old(self).pdf_handler.page_nums as int ==> *final(self) == *old(self),
    {
        if (self.cur_page as usize) < self.pdf_handler.page_nums {
            self.cur_page = self.cur_page + 1;
            self.already_render = false;
        }
    }

    /// Goes one page back, unless on the first page.
    pub fn previous_page(&mut self)
        ensures
            old(self).cur_page > 1 ==> *final(self) == (App {
                cur_page: (old(self).cur_page - 1) as u32,
                already_render: false,
                ..*old(self)
            }),
            old(self).cur_page <= 1 ==> *final(self) == *old(self),
    {
        if self.cur_page > 1 {
            self.cur_page = self.cur_page - 1;
            self.already_render = false;
        }
    }

    /// Sets the preview size (the zoom); the page is to be drawn again.
    pub fn set_pdf_size(&mut self, width: i32, height: i32)
        ensures
            *final(self) == (App {
                pdf_size: PdfSize { width, height, ..old(self).pdf_size },
                already_render: false,
                ..*old(self)
            }),
    {
        self.pdf_size.width = width;
        self.pdf_size.height = height;
        self.already_render = false;
    }

    /// Lists the table of contents anew.
    pub fn update_book_mark_rows(&mut self)
        requires
            old(self).wf(),
        ensures
            final(self).wf(),
            final(self).ui_book_marks matches Some(rows) && paths_view(rows@) == listed_paths(
                old(self).pdf_handler.book_marks@,
                old(self).pdf_handler.book_marks@.len() as int,
            ),
            *final(self) == (App { ui_book_marks: final(self).ui_book_marks, ..*old(self) }),
    {
        let rows = self.pdf_handler.visible_rows();
        self.ui_book_marks = Some(rows);
    }

    /// The preview area is drawn at (`x`, `y`): the first time since the page
    /// changed, the page is asked for.
    pub fn render_pdf(&mut self, x: u16, y: u16) -> (r: Option<Event>)
        ensures
            old(self).already_render ==> *final(self) == *old(self) && r is None,
            !old(self).already_render ==> *final(self) == (App {
                already_render: true,
                loading: true,
                pdf_size: PdfSize { x, y, ..old(self).pdf_size },
                ..*old(self)
            }) && r == Some(Event::LoadingFirst(old(self).cur_page)),
    {
        if !self.already_render {
            self.already_render = true;
            self.loading = true;
            self.pdf_size.update(x, y);
            Some(Event::LoadingFirst(self.cur_page))
        } else {
            None
        }
    }

    /// The current page is to be shown: read it when it is ready, else ask
    /// for it.
    pub fn render_step(&self) -> (r: Action)
        ensures
            is_ready(self.page_cache.cache@, self.cur_page) ==> r == Action::Show(self.cur_page),
            !is_ready(self.page_cache.cache@, self.cur_page) ==> r == Action::Emit(
                Event::LoadingFirst(self.cur_page),
            ),
    {
        if self.page_cache.page_exists(self.cur_page) {
            Action::Show(self.cur_page)
        } else {
            Action::Emit(Event::LoadingFirst(self.cur_page))
        }
    }

    /// The current page has been displayed: it is no longer awaited, and
    /// read-ahead goes on while pages remain.
    pub fn page_shown(&mut self) -> (r: Option<Event>)
        ensures
            *final(self) == (App { loading: false, ..*old(self) }),
            r == if old(self).next_load_page as int <= old(self).pdf_handler.page_nums as int {
                Some(Event::LoadingNext)
            } else {
                None
            },
    {
        self.loading = false;
        if (self.next_load_page as usize) <= self.pdf_handler.page_nums {
            Some(Event::LoadingNext)
        } else {
            None
        }
    }

    /// Reading the current page's image failed: when the file is missing,
    /// the page is asked for again; any other failure skips this frame.
    pub fn page_read_failed(&self, not_found: bool) -> (r: Option<Event>)
        ensures
            r == if not_found {
                Some(Event::LoadingFirst(self.cur_page))
            } else {
                None
            },
    {
        if not_found {
            Some(Event::LoadingFirst(self.cur_page))
        } else {
            None
        }
    }

    /// The read-ahead page to queue, if it is a page of the document; the
    /// read-ahead pointer then moves on.
    pub fn take_next_load_page(&mut self) -> (r: Option<u32>)
        requires
            old(self).wf(),
        ensures
            old(self).next_load_page as int <= old(self).pdf_handler.page_nums as int ==> r == Some(
                old(self).next_load_page,
            ) && *final(self) == (App { next_load_page: (old(self).next_load_page + 1) as u32, ..*old(self) }),
            old(self).next_load_page as int > old(self).pdf_handler.page_nums as int ==> r is None && *final(self)
                == *old(self),
    {
        if (self.next_load_page as usize) <= self.pdf_handler.page_nums {
            let n = self.next_load_page;
            self.next_load_page = n + 1;
            Some(n)
        } else {
            None
        }
    }
}

/// The actions that the head of the prefetch queue calls for.
pub open spec fn prefetch_actions(o: Prefetch) -> Seq<Action> {
    match o {
        Prefetch::Convert(p) => seq![Action::Convert(p)],
        Prefetch::Render => seq![Action::Emit(Event::RenderPdf)],
        Prefetch::Idle => Seq::empty(),
    }
}

/// The read-ahead page that the next prefetch queues, if any.
pub open spec fn read_ahead(app: App) -> Option<u32> {
    if app.next_load_page as int <= app.pdf_handler.page_nums as int {
        Some(app.next_load_page)
    } else {
        None
    }
}

/// `after` differs from `before` only in its page cache, whose directory is kept.
pub open spec fn cache_changed(before: App, after: App) -> bool {
    &&& after == (App { page_cache: after.page_cache, ..before })
    &&& after.page_cache.path == before.page_cache.path
}

/// What handling `event` does: `before` becomes `after` and `r` is asked of
/// the main loop.
pub open spec fn event_done(event: Event, before: App, after: App, r: Seq<Action>) -> bool {
    match event {
        Event::Tick => after == before && r == Seq::<Action>::empty(),
        Event::Resize(_, _) => after == before && r == Seq::<Action>::empty(),
        Event::Key(k) => {
            &&& before.app_state == AppState::Normal ==> normal_key_done(k, before, after, r)
            &&& before.app_state matches AppState::Search(text) ==> search_key_done(k, text@, before, after, r)
            &&& before.app_state matches AppState::JumpPage(digits) ==> jump_key_done(k, digits@, before, after, r)
        },
        Event::RenderPdf => after == before && r == seq![
            if is_ready(before.page_cache.cache@, before.cur_page) {
                Action::Show(before.cur_page)
            } else {
                Action::Emit(Event::LoadingFirst(before.cur_page))
            },
        ],
        Event::LoadingFirst(p) => {
            &&& cache_changed(before, after)
            &&& after.page_cache.model() == after_load_requested(before.page_cache.model(), p).0
            &&& r == seq![Action::Emit(after_load_requested(before.page_cache.model(), p).1)]
        },
        Event::LoadingNext => {
            &&& after == (App {
                page_cache: after.page_cache,
                next_load_page: if read_ahead(before) is Some {
                    (before.next_load_page + 1) as u32
                } else {
                    before.next_load_page
                },
                ..before
            })
            &&& after.page_cache.path == before.page_cache.path
            &&& after.page_cache.model() == after_prefetch(before.page_cache.model(), read_ahead(before))
            &&& r == prefetch_actions(prefetch_outcome(before.page_cache.model()))
        },
        Event::ChangeState(s) => after == (App { app_state: s, ..before }) && r == Seq::<Action>::empty(),
        Event::PageConverted(p) => {
            &&& cache_changed(before, after)
            &&& after.page_cache.model() == after_converted(before.page_cache.model(), p)
            &&& r == seq![Action::Emit(Event::RenderPdf)]
        },
        Event::ConversionFailed(p) => {
            &&& cache_changed(before, after)
            &&& after.page_cache.model() == after_failed(before.page_cache.model(), p)
            &&& r == Seq::<Action>::empty()
        },
    }
}

/// What an event of the main loop asks of the page cache, if anything.
pub open spec fn cache_input(event: Event, app: App) -> Option<CacheInput> {
    match event {
        Event::LoadingFirst(p) => Some(CacheInput::LoadRequested(p)),
        Event::LoadingNext => Some(CacheInput::PrefetchNext(read_ahead(app))),
        Event::PageConverted(p) => Some(CacheInput::Converted(p)),
        Event::ConversionFailed(p) => Some(CacheInput::Failed(p)),
        _ => None,
    }
}

/// Handling an event changes the page cache by exactly the step of the cache
/// input the event amounts to, and by nothing otherwise; a conversion is
/// started only on a prefetch whose outcome is that conversion. So the laws
/// of the cache (`lemma_ready_stays_ready`, `lemma_single_conversion`,
/// `lemma_queued_once`) hold of any run of the main loop.
pub proof fn lemma_event_is_cache_step(event: Event, before: App, after: App, r: Seq<Action>)
    requires
        event_done(event, before, after, r),
    ensures
        after.page_cache.model() == match cache_input(event, before) {
            Some(i) => step(before.page_cache.model(), i),
            None => before.page_cache.model(),
        },
        forall|k: int, p: u32|
            0 <= k < r.len() && r[k] == Action::Convert(p) ==> event == Event::LoadingNext && prefetch_outcome(
                before.page_cache.model(),
            ) == Prefetch::Convert(p),
{
    let c: CacheModel = before.page_cache.model();
    match event {
        Event::LoadingNext => {
            match prefetch_outcome(c) {
                Prefetch::Convert(q) => assert(r == seq![Action::Convert(q)]),
                Prefetch::Render => assert(r == seq![Action::Emit(Event::RenderPdf)]),
                Prefetch::Idle => assert(r.len() == 0),
            }
        },
        _ => {},
    }
}

impl App {
    /// Handles one event of the main loop and returns what the loop must do
    /// next (see `event_done`).
    pub fn handle_event(&mut self, event: Event) -> (r: Vec<Action>)
        requires
            old(self).wf(),
        ensures
            final(self).wf(),
            event_done(event, *old(self), *final(self), r@),
    {
        let mut r: Vec<Action> = Vec::new();
        match event {
            Event::Tick => self.tick(),
            Event::Resize(_, _) => {},
            Event::Key(key_event) => {
                r = handle_key_events(key_event, self);
            },
            Event::RenderPdf => r.push(self.render_step()),
            Event::LoadingFirst(page_id) => {
                let e = self.page_cache.add_first(page_id);
                r.push(Action::Emit(e));
            },
            Event::LoadingNext => {
                let next = self.take_next_load_page();
                match self.page_cache.load_next_page(next) {
                    Prefetch::Convert(p) => r.push(Action::Convert(p)),
                    Prefetch::Render => r.push(Action::Emit(Event::RenderPdf)),
                    Prefetch::Idle => {},
                }
            },
            Event::ChangeState(state) => {
                self.app_state = state;
            },
            Event::PageConverted(page_id) => {
                let e = self.page_cache.page_converted(page_id);
                r.push(Action::Emit(e));
            },
            Event::ConversionFailed(page_id) => self.page_cache.conversion_failed(page_id),
        }
        proof {
            if event is LoadingNext {
                assert(r@ =~= prefetch_actions(prefetch_outcome(old(self).page_cache.model())));
            }
        }
        r
    }
}

/// Row `skip_up` reaches from row `i`.
fn skip_rows_up(rows: &Option<Vec<BookMarkIndex>>, i: usize) -> (r: usize)
    requires
        i < rows_of(*rows).len(),
    ensures
        r == skip_up(rows_of(*rows), rows_of(*rows)[i as int]@.len() as int, i as int),
{
    let list = match rows {
        Some(v) => v,
        None => {
            return 0;
        },
    };
    let origin = list[i].len();
    let mut j = i;
    while j > 0
        invariant
            rows_of(*rows) == list@,
            j <= i < list@.len(),
            origin == list@[i as int]@.len(),
            skip_up(list@, origin as int, i as int) == skip_up(list@, origin as int, j as int),
        decreases j,
    {
        let depth = list[j - 1].len();
        if depth < origin || (depth == 1 && origin == 1) {
            proof {
                assert(stops_at(list@[j - 1]@.len() as int, origin as int));
                assert(skip_up(list@, origin as int, j as int) == j - 1);
            }
            return j - 1;
        }
        j -= 1;
    }
    0
}

/// Row `skip_down` reaches from row `i`.
fn skip_rows_down(rows: &Option<Vec<BookMarkIndex>>, i: usize) -> (r: usize)
    requires
        i < rows_of(*rows).len(),
    ensures
        r == skip_down(rows_of(*rows), rows_of(*rows)[i as int]@.len() as int, i as int),
{
    let list = match rows {
        Some(v) => v,
        None => {
            return 0;
        },
    };
    let origin = list[i].len();
    let mut j = i;
    while j < list.len() - 1
        invariant
            rows_of(*rows) == list@,
            i <= j < list@.len(),
            origin == list@[i as int]@.len(),
            skip_down(list@, origin as int, i as int) == skip_down(list@, origin as int, j as int),
        decreases list@.len() - j,
    {
        let depth = list[j + 1].len();
        if depth < origin || (depth == 1 && origin == 1) {
            proof {
                assert(stops_at(list@[j + 1]@.len() as int, origin as int));
                assert(skip_down(list@, origin as int, j as int) == j + 1);
            }
            return j + 1;
        }
        j += 1;
    }
    j
}

} // verus!
