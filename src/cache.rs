//! The page cache: which pages have been rasterised to disk, which are being
//! converted, and the queue of pages to convert next.
use vstd::prelude::*;
use std::collections::HashMap;
use crate::event::Event;
use crate::text::{decimal, decimal_string, file_stem, join_path, parent_dir, parse_u32, parsed_u32, path_joined, path_parent, path_stem};

verus! {

broadcast use vstd::std_specs::hash::group_hash_axioms;

/// Where a page stands in the cache. A page that is not in the cache has no
/// conversion running and no image.
#[derive(Debug, Clone, Copy, PartialEq, Eq, Structural)]
pub enum PageState {
    /// Its conversion has started and not finished.
    Reserved,
    /// Its image is on disk.
    Ready,
}

/// What starting the next queued conversion leads to.
#[derive(Debug, Clone, Copy, PartialEq, Eq)]
pub enum Prefetch {
    /// Nothing was queued, or the page's conversion is already running.
    Idle,
    /// The page at the head of the queue is ready already: render again.
    Render,
    /// The page must be converted; it is now reserved.
    Convert(u32),
}

/// The state of a cache: each page's state and the prefetch queue.
pub type CacheModel = (Map<u32, PageState>, Seq<u32>);

pub open spec fn is_ready(pages: Map<u32, PageState>, p: u32) -> bool {
    pages.contains_key(p) && pages[p] == PageState::Ready
}

/// The queue `q` with every copy of `p` taken out, the rest in order.
pub open spec fn without(q: Seq<u32>, p: u32) -> Seq<u32>
    decreases q.len(),
{
    if q.len() == 0 {
        q
    } else if q.last() == p {
        without(q.drop_last(), p)
    } else {
        without(q.drop_last(), p).push(q.last())
    }
}

/// No page is queued twice.
pub open spec fn queued_once(q: Seq<u32>) -> bool {
    forall|i: int, j: int| 0 <= i < j < q.len() ==> q[i] != q[j]
}

/// A page is asked for: a ready page is rendered at once, any other page moves
/// to the front of the queue, ahead of the pages queued for read-ahead, which
/// keep their order.
pub open spec fn after_load_requested(c: CacheModel, p: u32) -> (CacheModel, Event) {
    if is_ready(c.0, p) {
        (c, Event::RenderPdf)
    } else {
        ((c.0, seq![p] + without(c.1, p)), Event::LoadingNext)
    }
}

/// What the head of the queue calls for.
pub open spec fn prefetch_outcome(c: CacheModel) -> Prefetch {
    if c.1.len() == 0 {
        Prefetch::Idle
    } else if !c.0.contains_key(c.1[0]) {
        Prefetch::Convert(c.1[0])
    } else if c.0[c.1[0]] == PageState::Ready {
        Prefetch::Render
    } else {
        Prefetch::Idle
    }
}

/// The next queued page is taken off the queue, and reserved when it is
/// neither converting nor ready; then the read-ahead page `next`, if any,
/// joins the end of the queue, unless it is ready or queued already.
pub open spec fn after_prefetch(c: CacheModel, next: Option<u32>) -> CacheModel {
    let pages = if c.1.len() > 0 && !c.0.contains_key(c.1[0]) {
        c.0.insert(c.1[0], PageState::Reserved)
    } else {
        c.0
    };
    let queue = if c.1.len() > 0 {
        c.1.drop_first()
    } else {
        c.1
    };
    (
        pages,
        match next {
            Some(n) => if is_ready(c.0, n) || queue.contains(n) {
                queue
            } else {
                queue.push(n)
            },
            None => queue,
        },
    )
}

/// A conversion has finished: its page is ready.
pub open spec fn after_converted(c: CacheModel, p: u32) -> CacheModel {
    (c.0.insert(p, PageState::Ready), c.1)
}

/// A conversion has failed: a reserved page leaves the cache, so that a later
/// request converts it again; a ready page stays ready.
pub open spec fn after_failed(c: CacheModel, p: u32) -> CacheModel {
    if c.0.contains_key(p) && c.0[p] == PageState::Reserved {
        (c.0.remove(p), c.1)
    } else {
        c
    }
}

/// An input of the cache, as the main loop passes them on.
pub enum CacheInput {
    LoadRequested(u32),
    PrefetchNext(Option<u32>),
    Converted(u32),
    Failed(u32),
}

/// The input reports that page `p`'s conversion failed.
pub open spec fn is_failure_of(i: CacheInput, p: u32) -> bool {
    i matches CacheInput::Failed(q) && q == p
}

pub open spec fn step(c: CacheModel, i: CacheInput) -> CacheModel {
    match i {
        CacheInput::LoadRequested(p) => after_load_requested(c, p).0,
        CacheInput::PrefetchNext(next) => after_prefetch(c, next),
        CacheInput::Converted(p) => after_converted(c, p),
        CacheInput::Failed(p) => after_failed(c, p),
    }
}

/// The cache after the inputs, in order.
pub open spec fn run(c: CacheModel, inputs: Seq<CacheInput>) -> CacheModel
    decreases inputs.len(),
{
    if inputs.len() == 0 {
        c
    } else {
        run(step(c, inputs[0]), inputs.drop_first())
    }
}

/// How many conversions of page `p` the inputs start.
pub open spec fn launches(c: CacheModel, inputs: Seq<CacheInput>, p: u32) -> nat
    decreases inputs.len(),
{
    if inputs.len() == 0 {
        0
    } else {
        let here: nat = match inputs[0] {
            CacheInput::PrefetchNext(_) => if prefetch_outcome(c) == Prefetch::Convert(p) {
                1
            } else {
                0
            },
            _ => 0,
        };
        here + launches(step(c, inputs[0]), inputs.drop_first(), p)
    }
}

/// Once ready, a page stays ready whatever the cache is told afterwards.
pub proof fn lemma_ready_stays_ready(c: CacheModel, inputs: Seq<CacheInput>, p: u32)
    requires
        is_ready(c.0, p),
    ensures
        is_ready(run(c, inputs).0, p),
    decreases inputs.len(),
{
    if inputs.len() > 0 {
        lemma_ready_stays_ready(step(c, inputs[0]), inputs.drop_first(), p);
    }
}

/// However many times page `p` is asked for, or the queue advanced, at most
/// one conversion of `p` is started as long as no conversion of `p` fails:
/// the first one reserves the page, and a reserved or ready page is not
/// converted again.
pub proof fn lemma_single_conversion(c: CacheModel, inputs: Seq<CacheInput>, p: u32)
    requires
        forall|i: int| 0 <= i < inputs.len() ==> !is_failure_of(#[trigger] inputs[i], p),
    ensures
        launches(c, inputs, p) <= 1,
        c.0.contains_key(p) ==> launches(c, inputs, p) == 0,
    decreases inputs.len(),
{
    if inputs.len() > 0 {
        let rest = inputs.drop_first();
        assert forall|i: int| 0 <= i < rest.len() implies !is_failure_of(#[trigger] rest[i], p) by {
            assert(rest[i] == inputs[i + 1]);
        }
        assert(!is_failure_of(inputs[0], p));
        lemma_single_conversion(step(c, inputs[0]), rest, p);
    }
}

/// What is left of a queue without `p`: its other pages, each still once.
pub proof fn lemma_without(q: Seq<u32>, p: u32)
    ensures
        forall|x: u32| #[trigger] without(q, p).contains(x) <==> (q.contains(x) && x != p),
        queued_once(q) ==> queued_once(without(q, p)),
    decreases q.len(),
{
    if q.len() > 0 {
        let rest = q.drop_last();
        lemma_without(rest, p);
        assert forall|x: u32| #[trigger] q.contains(x) <==> (rest.contains(x) || x == q.last()) by {
            if q.contains(x) {
                let i = choose|i: int| 0 <= i < q.len() && q[i] == x;
                if i < q.len() - 1 {
                    assert(rest[i] == x);
                }
            }
            if rest.contains(x) {
                let i = choose|i: int| 0 <= i < rest.len() && rest[i] == x;
                assert(q[i] == x);
            }
            if x == q.last() {
                assert(q[q.len() - 1] == x);
            }
        }
        let w = without(rest, p);
        if q.last() != p {
            assert forall|x: u32| #[trigger] w.push(q.last()).contains(x) <==> (w.contains(x) || x == q.last()) by {
                if w.push(q.last()).contains(x) {
                    let i = choose|i: int| 0 <= i < w.len() + 1 && w.push(q.last())[i] == x;
                    if i < w.len() {
                        assert(w[i] == x);
                    }
                }
                if w.contains(x) {
                    let i = choose|i: int| 0 <= i < w.len() && w[i] == x;
                    assert(w.push(q.last())[i] == x);
                }
                if x == q.last() {
                    assert(w.push(q.last())[w.len() as int] == x);
                }
            }
            if queued_once(q) {
                assert(queued_once(rest));
                assert(!rest.contains(q.last())) by {
                    if rest.contains(q.last()) {
                        let i = choose|i: int| 0 <= i < rest.len() && rest[i] == q.last();
                        assert(q[i] == q[q.len() - 1]);
                    }
                }
                assert forall|i: int, j: int| 0 <= i < j < w.len() + 1 implies w.push(q.last())[i] != w.push(
                    q.last(),
                )[j] by {
                    if j == w.len() {
                        assert(w.contains(w[i]));
                    }
                }
            }
        } else {
            if queued_once(q) {
                assert(queued_once(rest));
            }
        }
    }
}

/// Whatever the cache is told, a queue that holds each page at most once
/// still does: a requested page moves to the front instead of being queued
/// again, and read-ahead skips pages already queued.
pub proof fn lemma_queued_once(c: CacheModel, inputs: Seq<CacheInput>)
    requires
        queued_once(c.1),
    ensures
        queued_once(run(c, inputs).1),
    decreases inputs.len(),
{
    if inputs.len() > 0 {
        let next = step(c, inputs[0]);
        match inputs[0] {
            CacheInput::LoadRequested(p) => {
                if !is_ready(c.0, p) {
                    lemma_without(c.1, p);
                    let w = without(c.1, p);
                    assert forall|i: int, j: int| 0 <= i < j < w.len() + 1 implies (seq![p] + w)[i] != (seq![p]
                        + w)[j] by {
                        if i == 0 {
                            assert(w.contains(w[j - 1]));
                        }
                    }
                }
            },
            CacheInput::PrefetchNext(n) => {
                let queue = if c.1.len() > 0 {
                    c.1.drop_first()
                } else {
                    c.1
                };
                assert(queued_once(queue));
                if let Some(x) = n {
                    if !(is_ready(c.0, x) || queue.contains(x)) {
                        assert forall|i: int, j: int| 0 <= i < j < queue.len() + 1 implies queue.push(x)[i]
                            != queue.push(x)[j] by {
                            if j == queue.len() {
                                assert(queue.contains(queue[i]));
                            }
                        }
                    }
                }
            },
            _ => {},
        }
        lemma_queued_once(next, inputs.drop_first());
    }
}

/// The directory that holds a document's page images: `<stem>-rpr` beside the
/// document.
pub open spec fn cache_dir_of(path: Seq<char>) -> Option<Seq<char>> {
    match (path_parent(path), path_stem(path)) {
        (Some(dir), Some(stem)) => Some(path_joined(dir, stem + seq!['-', 'r', 'p', 'r'])),
        _ => None,
    }
}

/// The file of page `p`'s image in directory `dir`.
pub open spec fn page_path_of(dir: Seq<char>, p: u32) -> Seq<char> {
    dir + seq!['/'] + decimal(p as nat) + seq!['.', 'j', 'p', 'e', 'g']
}

/// The pages whose images a directory already holds, given its entries: each
/// entry whose stem is a page number.
pub open spec fn adopted(entries: Seq<Seq<char>>) -> Map<u32, PageState>
    decreases entries.len(),
{
    if entries.len() == 0 {
        Map::empty()
    } else {
        let rest = adopted(entries.drop_last());
        match path_stem(entries.last()) {
            Some(stem) => match parsed_u32(stem) {
                Some(p) => rest.insert(p, PageState::Ready),
                None => rest,
            },
            None => rest,
        }
    }
}

/// The page cache of one document.
pub struct FileCache {
    /// The directory of the page images.
    pub path: String,
    /// Pages waiting for conversion, first to convert first.
    pub page_queue: Vec<u32>,
    /// The state of each page that is converting or ready.
    pub cache: HashMap<u32, PageState>,
}

/// Whether page `p` is in the queue.
fn queue_contains(queue: &Vec<u32>, p: u32) -> (r: bool)
    ensures
        r == queue@.contains(p),
{
    let mut i: usize = 0;
    while i < queue.len()
        invariant
            i <= queue@.len(),
            forall|j: int| 0 <= j < i ==> queue@[j] != p,
        decreases queue@.len() - i,
    {
        if queue[i] == p {
            return true;
        }
        i += 1;
    }
    false
}

impl FileCache {
    pub open spec fn model(&self) -> CacheModel {
        (self.cache@, self.page_queue@)
    }

    /// The cache directory of the document at `pdf_path`; `None` when the
    /// path has no parent or no file name.
    pub fn cache_dir(pdf_path: &str) -> (r: Option<String>)
        ensures
            r is Some <==> cache_dir_of(pdf_path@) is Some,
            r matches Some(d) ==> d@ == cache_dir_of(pdf_path@)->0,
    {
        let dir = match parent_dir(pdf_path) {
            Some(d) => d,
            None => {
                return None;
            },
        };
        let stem = match file_stem(pdf_path) {
            Some(s) => s,
            None => {
                return None;
            },
        };
        proof {
            reveal_strlit("-rpr");
        }
        let name = stem.concat("-rpr");
        proof {
            assert(name@ =~= stem@ + seq!['-', 'r', 'p', 'r']);
        }
        Some(join_path(dir.as_str(), name.as_str()))
    }

    /// The pages already converted, from the entries of the cache directory.
    pub fn init_page_cache(entries: &Vec<String>) -> (r: HashMap<u32, PageState>)
        ensures
            r@ == adopted(entries@.map_values(|e: String| e@)),
    {
        let ghost names = entries@.map_values(|e: String| e@);
        let mut cache: HashMap<u32, PageState> = HashMap::new();
        let mut i: usize = 0;
        while i < entries.len()
            invariant
                i <= entries@.len(),
                names == entries@.map_values(|e: String| e@),
                cache@ == adopted(names.take(i as int)),
            decreases entries@.len() - i,
        {
            proof {
                assert(names.take(i + 1).drop_last() =~= names.take(i as int));
            }
            if let Some(stem) = file_stem(entries[i].as_str()) {
                if let Some(p) = parse_u32(stem.as_str()) {
                    cache.insert(p, PageState::Ready);
                }
            }
            i += 1;
        }
        proof {
            assert(names.take(entries@.len() as int) =~= names);
        }
        cache
    }

    /// A cache over directory `dir` that adopts the images listed in
    /// `entries`, with an empty queue.
    pub fn new(dir: String, entries: &Vec<String>) -> (r: FileCache)
        ensures
            r.path@ == dir@,
            r.page_queue@.len() == 0,
            r.cache@ == adopted(entries@.map_values(|e: String| e@)),
    {
        let cache = Self::init_page_cache(entries);
        FileCache { path: dir, page_queue: Vec::new(), cache }
    }

    /// Whether page `page_id`'s image is ready.
    pub fn page_exists(&self, page_id: u32) -> (r: bool)
        ensures
            r == is_ready(self.cache@, page_id),
    {
        match self.cache.get(&page_id) {
            Some(state) => *state == PageState::Ready,
            None => false,
        }
    }

    /// The file of page `page_id`'s image.
    pub fn get_page_path(&self, page_id: u32) -> (r: String)
        ensures
            r@ == page_path_of(self.path@, page_id),
    {
        proof {
            reveal_strlit("/");
            reveal_strlit(".jpeg");
        }
        let digits = decimal_string(page_id as u64);
        let r = self.path.clone().concat("/").concat(digits.as_str()).concat(".jpeg");
        proof {
            assert(r@ =~= page_path_of(self.path@, page_id));
        }
        r
    }

    /// A page is asked for (see `after_load_requested`).
    pub fn add_first(&mut self, page_id: u32) -> (r: Event)
        ensures
            (final(self).model(), r) == after_load_requested(old(self).model(), page_id),
            final(self).path == old(self).path,
            !is_ready(old(self).cache@, page_id) ==> final(self).page_queue@[0] == page_id
                && !final(self).page_queue@.drop_first().contains(page_id)
                && final(self).page_queue@.drop_first() == without(old(self).page_queue@, page_id),
    {
        if self.page_exists(page_id) {
            Event::RenderPdf
        } else {
            let ghost q = self.page_queue@;
            let mut queue: Vec<u32> = Vec::new();
            queue.push(page_id);
            let mut i: usize = 0;
            while i < self.page_queue.len()
                invariant
                    q == self.page_queue@,
                    i <= q.len(),
                    queue@ == seq![page_id] + without(q.take(i as int), page_id),
                decreases q.len() - i,
            {
                let x = self.page_queue[i];
                proof {
                    assert(q.take(i + 1).drop_last() =~= q.take(i as int));
                    assert(q.take(i + 1).last() == x);
                }
                if x != page_id {
                    queue.push(x);
                    proof {
                        assert(queue@ =~= seq![page_id] + without(q.take(i + 1), page_id));
                    }
                }
                i += 1;
            }
            proof {
                assert(q.take(q.len() as int) =~= q);
                lemma_without(q, page_id);
                assert(queue@.drop_first() =~= without(q, page_id));
            }
            self.page_queue = queue;
            Event::LoadingNext
        }
    }

    /// Takes the next page off the queue and says what it calls for, then
    /// queues the read-ahead page `next_page_id` (see `after_prefetch`).
    pub fn load_next_page(&mut self, next_page_id: Option<u32>) -> (r: Prefetch)
        ensures
            r == prefetch_outcome(old(self).model()),
            final(self).model() == after_prefetch(old(self).model(), next_page_id),
            final(self).path == old(self).path,
    {
        let mut outcome = Prefetch::Idle;
        if self.page_queue.len() > 0 {
            let id = self.page_queue.remove(0);
            outcome = self.convert_pdf_to_ppm(id);
        }
        if let Some(next) = next_page_id {
            if !self.page_exists(next) && !queue_contains(&self.page_queue, next) {
                self.page_queue.push(next);
            }
        }
        proof {
            assert(self.page_queue@ =~= after_prefetch(old(self).model(), next_page_id).1);
        }
        outcome
    }

    /// Decides on converting page `page_id`: a page already ready is rendered,
    /// a page already converting is left alone, any other page is reserved and
    /// must be converted.
    pub fn convert_pdf_to_ppm(&mut self, page_id: u32) -> (r: Prefetch)
        ensures
            r == (if !old(self).cache@.contains_key(page_id) {
                Prefetch::Convert(page_id)
            } else if old(self).cache@[page_id] == PageState::Ready {
                Prefetch::Render
            } else {
                Prefetch::Idle
            }),
            final(self).cache@ == (if old(self).cache@.contains_key(page_id) {
                old(self).cache@
            } else {
                old(self).cache@.insert(page_id, PageState::Reserved)
            }),
            final(self).page_queue == old(self).page_queue,
            final(self).path == old(self).path,
    {
        match self.cache.get(&page_id) {
            Some(state) => if *state == PageState::Ready {
                Prefetch::Render
            } else {
                Prefetch::Idle
            },
            None => {
                self.cache.insert(page_id, PageState::Reserved);
                Prefetch::Convert(page_id)
            },
        }
    }

    /// A conversion has finished (see `after_converted`); the page is to be
    /// rendered again.
    pub fn page_converted(&mut self, page_id: u32) -> (r: Event)
        ensures
            final(self).model() == after_converted(old(self).model(), page_id),
            final(self).path == old(self).path,
            r == Event::RenderPdf,
    {
        self.cache.insert(page_id, PageState::Ready);
        Event::RenderPdf
    }

    /// A conversion has failed (see `after_failed`).
    pub fn conversion_failed(&mut self, page_id: u32)
        ensures
            final(self).model() == after_failed(old(self).model(), page_id),
            final(self).path == old(self).path,
    {
        let reserved = match self.cache.get(&page_id) {
            Some(state) => *state == PageState::Reserved,
            None => false,
        };
        if reserved {
            self.cache.remove(&page_id);
        }
    }
}

} // verus!
