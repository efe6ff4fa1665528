//! The full walk over a wiki: which shelf, book, chapter or page is fetched next,
//! and which row is stored for what was fetched. Fetching and storing are the
//! caller's.

use crate::content;
use crate::index::{
    BookKind, ChapterKind, IndexedBook, IndexedChapter, IndexedPage, IndexedShelf, PageCache,
    ShelfKind,
};
use crate::json::Json;
use crate::text;
use crate::worker;
use crate::worker::{
    book_row, chapter_page_ids, chapter_row, copy_text, identity_of_page, list_book_items,
    page_rows, shelf_books, shelf_row, unshelved_books, BookItem, PageParents, ParentsModel,
};
use vstd::prelude::*;

verus! {

// --- Tasks ---

/// Something that a walk has yet to fetch, with what it has from its parents.
#[allow(inconsistent_fields)]
#[derive(Debug)]
pub enum WalkTask {
    Shelf(i64),
    Book { book_id: i64, shelf_id: Option<i64>, shelf_kind: ShelfKind },
    Chapter {
        chapter_id: i64,
        book_id: i64,
        book_kind: BookKind,
        identity_ouid: Option<String>,
    },
    Page {
        page_id: i64,
        book_id: i64,
        chapter_id: Option<i64>,
        book_kind: BookKind,
        chapter_kind: Option<ChapterKind>,
        chapter_archive_year: Option<i32>,
        identity_ouid: Option<String>,
    },
}

/// A task with its identity as text.
pub enum TaskModel {
    Shelf(i64),
    Book { book_id: i64, shelf_id: Option<i64>, shelf_kind: ShelfKind },
    Chapter {
        chapter_id: i64,
        book_id: i64,
        book_kind: BookKind,
        identity_ouid: Option<Seq<char>>,
    },
    Page { page_id: i64, parents: ParentsModel },
}

impl WalkTask {
    pub open spec fn model(self) -> TaskModel {
        match self {
            WalkTask::Shelf(id) => TaskModel::Shelf(id),
            WalkTask::Book { book_id, shelf_id, shelf_kind } => TaskModel::Book {
                book_id,
                shelf_id,
                shelf_kind,
            },
            WalkTask::Chapter { chapter_id, book_id, book_kind, identity_ouid } =>
                TaskModel::Chapter {
                chapter_id,
                book_id,
                book_kind,
                identity_ouid: text::opt_text(identity_ouid),
            },
            WalkTask::Page {
                page_id,
                book_id,
                chapter_id,
                book_kind,
                chapter_kind,
                chapter_archive_year,
                identity_ouid,
            } => TaskModel::Page {
                page_id,
                parents: ParentsModel {
                    book_id,
                    chapter_id,
                    book_kind,
                    chapter_kind,
                    chapter_archive_year,
                    identity_ouid: text::opt_text(identity_ouid),
                },
            },
        }
    }
}

pub open spec fn task_models(tasks: Seq<WalkTask>) -> Seq<TaskModel> {
    tasks.map_values(|t: WalkTask| t.model())
}

/// What the caller is to do next.
#[derive(Clone, Copy, Debug, PartialEq, Eq, Structural)]
pub enum WalkStep {
    /// Fetch the shelf.
    Shelf(i64),
    /// Fetch the book, and its manifest page where it has one.
    Book(i64),
    /// Fetch the chapter.
    Chapter(i64),
    /// Fetch the page.
    Page(i64),
    /// List the ids of all books.
    ListBooks,
    /// Nothing.
    Done,
}

/// What a task is fetched by.
pub open spec fn step_of(task: TaskModel) -> WalkStep {
    match task {
        TaskModel::Shelf(id) => WalkStep::Shelf(id),
        TaskModel::Book { book_id, .. } => WalkStep::Book(book_id),
        TaskModel::Chapter { chapter_id, .. } => WalkStep::Chapter(chapter_id),
        TaskModel::Page { page_id, .. } => WalkStep::Page(page_id),
    }
}

/// The identity of a book: the one that its manifest page states, for the kinds
/// that have one.
pub open spec fn book_identity(kind: BookKind, manifest: Option<Json>) -> Option<Seq<char>> {
    if worker::has_identity(kind) {
        match manifest {
            Some(page) => worker::stated_identity(page),
            None => None,
        }
    } else {
        None
    }
}

/// The page that states the identity of a book that was fetched for the task.
pub open spec fn wanted_manifest(task: TaskModel, answer: Json) -> Option<i64> {
    match task {
        TaskModel::Book { shelf_kind, .. } => if worker::has_identity(
            worker::kind_of_book(answer, shelf_kind),
        ) {
            worker::manifest_of(answer)
        } else {
            None
        },
        _ => None,
    }
}

/// The task for a book on a shelf.
pub open spec fn shelved_book(shelf_id: i64) -> spec_fn(i64) -> TaskModel {
    |id: i64|
        TaskModel::Book {
            book_id: id,
            shelf_id: Some(shelf_id),
            shelf_kind: ShelfKind::Unclassified,
        }
}

/// The task for a book on no shelf.
pub open spec fn loose_book() -> spec_fn(i64) -> TaskModel {
    |id: i64|
        TaskModel::Book { book_id: id, shelf_id: None, shelf_kind: ShelfKind::Unclassified }
}

/// The task for something that a book holds.
pub open spec fn item_task(
    book_id: i64,
    book_kind: BookKind,
    identity_ouid: Option<Seq<char>>,
) -> spec_fn(BookItem) -> TaskModel {
    |item: BookItem|
        match item {
            BookItem::Chapter(id) => TaskModel::Chapter {
                chapter_id: id,
                book_id,
                book_kind,
                identity_ouid,
            },
            BookItem::Page(id) => TaskModel::Page {
                page_id: id,
                parents: ParentsModel {
                    book_id,
                    chapter_id: None,
                    book_kind,
                    chapter_kind: None,
                    chapter_archive_year: None,
                    identity_ouid,
                },
            },
        }
}

/// The task for a page of a chapter.
pub open spec fn page_task(parents: ParentsModel) -> spec_fn(i64) -> TaskModel {
    |id: i64| TaskModel::Page { page_id: id, parents }
}

/// The tasks that come up when a task was answered: the books of a shelf, the
/// chapters and pages of a book, the pages of a chapter.
pub open spec fn children(task: TaskModel, answer: Json, manifest: Option<Json>) -> Seq<
    TaskModel,
> {
    match task {
        TaskModel::Shelf(id) => content::member_ids(answer, "books"@).map_values(shelved_book(id)),
        TaskModel::Book { book_id, shelf_kind, .. } => {
            let kind = worker::kind_of_book(answer, shelf_kind);
            worker::items_of_book(answer).map_values(
                item_task(book_id, kind, book_identity(kind, manifest)),
            )
        },
        TaskModel::Chapter { chapter_id, book_id, book_kind, identity_ouid } => {
            let (chapter_kind, year) = worker::class_of_chapter(answer, book_kind);
            content::member_ids(answer, "pages"@).map_values(
                page_task(
                    ParentsModel {
                        book_id,
                        chapter_id: Some(chapter_id),
                        book_kind,
                        chapter_kind: Some(chapter_kind),
                        chapter_archive_year: year,
                        identity_ouid,
                    },
                ),
            )
        },
        TaskModel::Page { .. } => Seq::empty(),
    }
}

// --- The walk ---

/// A row to be stored.
#[derive(Debug)]
pub enum WalkRow {
    Shelf(IndexedShelf),
    Book(IndexedBook),
    Chapter(IndexedChapter),
    Page(IndexedPage, PageCache),
}

/// The row shows what was fetched for the task.
pub open spec fn is_row_of(
    row: WalkRow,
    task: TaskModel,
    answer: Json,
    manifest: Option<Json>,
    now: i64,
) -> bool {
    match (row, task) {
        (WalkRow::Shelf(r), TaskModel::Shelf(id)) => worker::is_shelf_row(r, id, answer, now),
        (WalkRow::Book(r), TaskModel::Book { book_id, shelf_id, shelf_kind }) =>
            worker::is_book_row(
            r,
            book_id,
            answer,
            shelf_id,
            shelf_kind,
            book_identity(worker::kind_of_book(answer, shelf_kind), manifest),
            now,
        ),
        (
            WalkRow::Chapter(r),
            TaskModel::Chapter { chapter_id, book_id, book_kind, identity_ouid },
        ) => worker::is_chapter_row(
            r,
            chapter_id,
            answer,
            book_id,
            book_kind,
            identity_ouid,
            now,
        ),
        (WalkRow::Page(r, c), TaskModel::Page { parents, .. }) => worker::is_page_row(
            r,
            answer,
            parents,
            now,
        ) && worker::is_cache_row(c, answer, now),
        _ => false,
    }
}

/// A walk: its tasks, the next one first, and how far it has come.
pub struct Walk {
    todo: Vec<WalkTask>,
    /// How many of the first tasks came up with the last answer.
    fresh: usize,
    /// The books that shelves have been found to hold.
    shelved: Vec<i64>,
    /// The books on no shelf are among the tasks, or have been.
    listed: bool,
    stopped: bool,
}

/// The state of a walk.
pub struct WalkModel {
    pub todo: Seq<TaskModel>,
    pub fresh: int,
    pub shelved: Seq<i64>,
    pub listed: bool,
    pub stopped: bool,
}

/// The walk after its first task could not be fetched: it goes on with the next.
pub open spec fn after_failure(m: WalkModel) -> WalkModel {
    WalkModel { todo: m.todo.drop_first(), fresh: 0, ..m }
}

/// The walk after its first task was answered: what came up is done next.
pub open spec fn after_answer(m: WalkModel, answer: Json, manifest: Option<Json>) -> WalkModel {
    let up = children(m.todo[0], answer, manifest);
    WalkModel {
        todo: up + m.todo.drop_first(),
        fresh: up.len() as int,
        shelved: match m.todo[0] {
            TaskModel::Shelf(_) => m.shelved + content::member_ids(answer, "books"@),
            _ => m.shelved,
        },
        ..m
    }
}

/// The walk after the row for the last answer could not be stored: what came up
/// with it is left out.
pub open spec fn after_lost_row(m: WalkModel) -> WalkModel {
    WalkModel { todo: m.todo.skip(m.fresh), fresh: 0, ..m }
}

/// The walk after all books were listed: those on no shelf are done last.
pub open spec fn after_listing(m: WalkModel, all: Seq<i64>) -> WalkModel {
    WalkModel {
        todo: m.todo + all.filter(|id: i64| !m.shelved.contains(id)).map_values(loose_book()),
        listed: true,
        ..m
    }
}

/// Tasks for the books of a shelf.
fn shelf_tasks(shelf_id: i64, ids: &Vec<i64>) -> (r: Vec<WalkTask>)
    ensures
        task_models(r@) == ids@.map_values(shelved_book(shelf_id)),
{
    let mut out: Vec<WalkTask> = Vec::new();
    let mut i: usize = 0;
    while i < ids.len()
        invariant
            i <= ids@.len(),
            out@.len() == i,
            forall|k: int|
                0 <= k < i ==> (#[trigger] out@[k]).model() == shelved_book(shelf_id)(ids@[k]),
        decreases ids@.len() - i,
    {
        out.push(
            WalkTask::Book {
                book_id: ids[i],
                shelf_id: Some(shelf_id),
                shelf_kind: ShelfKind::Unclassified,
            },
        );
        i += 1;
    }
    out
}

/// Tasks for the books on no shelf.
fn loose_tasks(ids: &Vec<i64>) -> (r: Vec<WalkTask>)
    ensures
        task_models(r@) == ids@.map_values(loose_book()),
{
    let mut out: Vec<WalkTask> = Vec::new();
    let mut i: usize = 0;
    while i < ids.len()
        invariant
            i <= ids@.len(),
            out@.len() == i,
            forall|k: int| 0 <= k < i ==> (#[trigger] out@[k]).model() == loose_book()(ids@[k]),
        decreases ids@.len() - i,
    {
        out.push(
            WalkTask::Book {
                book_id: ids[i],
                shelf_id: None,
                shelf_kind: ShelfKind::Unclassified,
            },
        );
        i += 1;
    }
    out
}

/// Tasks for what a book holds.
fn item_tasks(
    book_id: i64,
    book_kind: BookKind,
    identity_ouid: Option<&str>,
    items: &Vec<BookItem>,
) -> (r: Vec<WalkTask>)
    ensures
        task_models(r@) == items@.map_values(
            item_task(book_id, book_kind, text::opt_str(identity_ouid)),
        ),
{
    let ghost task = item_task(book_id, book_kind, text::opt_str(identity_ouid));
    let mut out: Vec<WalkTask> = Vec::new();
    let mut i: usize = 0;
    while i < items.len()
        invariant
            i <= items@.len(),
            task == item_task(book_id, book_kind, text::opt_str(identity_ouid)),
            out@.len() == i,
            forall|k: int| 0 <= k < i ==> (#[trigger] out@[k]).model() == task(items@[k]),
        decreases items@.len() - i,
    {
        let next = match items[i] {
            BookItem::Chapter(id) => WalkTask::Chapter {
                chapter_id: id,
                book_id,
                book_kind,
                identity_ouid: copy_text(identity_ouid),
            },
            BookItem::Page(id) => WalkTask::Page {
                page_id: id,
                book_id,
                chapter_id: None,
                book_kind,
                chapter_kind: None,
                chapter_archive_year: None,
                identity_ouid: copy_text(identity_ouid),
            },
        };
        assert(next.model() == task(items@[i as int]));
        out.push(next);
        i += 1;
    }
    out
}

/// Tasks for the pages of a chapter.
fn page_tasks(parents: &PageParents, ids: &Vec<i64>) -> (r: Vec<WalkTask>)
    ensures
        task_models(r@) == ids@.map_values(page_task(parents.model())),
{
    let mut out: Vec<WalkTask> = Vec::new();
    let mut i: usize = 0;
    while i < ids.len()
        invariant
            i <= ids@.len(),
            out@.len() == i,
            forall|k: int|
                0 <= k < i ==> (#[trigger] out@[k]).model() == page_task(parents.model())(
                    ids@[k],
                ),
        decreases ids@.len() - i,
    {
        let next = WalkTask::Page {
            page_id: ids[i],
            book_id: parents.book_id,
            chapter_id: parents.chapter_id,
            book_kind: parents.book_kind,
            chapter_kind: parents.chapter_kind,
            chapter_archive_year: parents.chapter_archive_year,
            identity_ouid: copy_text(parents.identity_ouid),
        };
        assert(next.model() == page_task(parents.model())(ids@[i as int]));
        out.push(next);
        i += 1;
    }
    out
}

/// An optional text as a reference.
fn text_ref<'a>(s: &'a Option<String>) -> (r: Option<&'a str>)
    ensures
        text::opt_str(r) == text::opt_text(*s),
{
    match s {
        Some(t) => Some(t.as_str()),
        None => None,
    }
}

/// The value that an optional reference refers to.
pub open spec fn referred(j: Option<&Json>) -> Option<Json> {
    match j {
        Some(v) => Some(*v),
        None => None,
    }
}

impl Walk {
    pub closed spec fn model(self) -> WalkModel {
        WalkModel {
            todo: task_models(self.todo@),
            fresh: self.fresh as int,
            shelved: self.shelved@,
            listed: self.listed,
            stopped: self.stopped,
        }
    }

    /// What came up last is among the tasks.
    pub open spec fn well_formed(self) -> bool {
        0 <= self.model().fresh <= self.model().todo.len()
    }

    /// Begins a walk over the shelves.
    pub fn begin(shelves: &Vec<i64>) -> (r: Self)
        ensures
            r.well_formed(),
            r.model() == (WalkModel {
                todo: shelves@.map_values(|id: i64| TaskModel::Shelf(id)),
                fresh: 0,
                shelved: Seq::empty(),
                listed: false,
                stopped: false,
            }),
    {
        let mut todo: Vec<WalkTask> = Vec::new();
        let mut i: usize = 0;
        while i < shelves.len()
            invariant
                i <= shelves@.len(),
                todo@.len() == i,
                forall|k: int|
                    0 <= k < i ==> (#[trigger] todo@[k]).model() == TaskModel::Shelf(shelves@[k]),
            decreases shelves@.len() - i,
        {
            todo.push(WalkTask::Shelf(shelves[i]));
            i += 1;
        }
        assert(task_models(todo@) =~= shelves@.map_values(|id: i64| TaskModel::Shelf(id)));
        let r = Walk { todo, fresh: 0, shelved: Vec::new(), listed: false, stopped: false };
        assert(r.model().shelved =~= Seq::<i64>::empty());
        r
    }

    /// What is to be done next. With a request to stop the walk ends here, unless
    /// it was over already.
    pub fn next(&mut self, stop: bool) -> (r: WalkStep)
        requires
            old(self).well_formed(),
        ensures
            final(self).well_formed(),
            ({
                let m = old(self).model();
                let over = m.stopped || (m.listed && m.todo.len() == 0);
                &&& final(self).model() == if stop && !over {
                    WalkModel { stopped: true, ..m }
                } else {
                    m
                }
                &&& r == if over || stop {
                    WalkStep::Done
                } else if m.todo.len() == 0 {
                    WalkStep::ListBooks
                } else {
                    step_of(m.todo[0])
                }
            }),
    {
        if self.stopped || (self.listed && self.todo.len() == 0) {
            return WalkStep::Done;
        }
        if stop {
            self.stopped = true;
            return WalkStep::Done;
        }
        if self.todo.len() == 0 {
            return WalkStep::ListBooks;
        }
        assert(self.model().todo[0] == self.todo@[0].model());
        match &self.todo[0] {
            WalkTask::Shelf(id) => WalkStep::Shelf(*id),
            WalkTask::Book { book_id, .. } => WalkStep::Book(*book_id),
            WalkTask::Chapter { chapter_id, .. } => WalkStep::Chapter(*chapter_id),
            WalkTask::Page { page_id, .. } => WalkStep::Page(*page_id),
        }
    }

    /// Tells whether the walk has come to its end without being stopped.
    pub fn is_complete(&self) -> (r: bool)
        ensures
            r == (!self.model().stopped && self.model().listed && self.model().todo.len() == 0),
    {
        !self.stopped && self.listed && self.todo.len() == 0
    }

    /// Goes on where the first task could not be fetched.
    pub fn failed(&mut self)
        requires
            old(self).well_formed(),
            old(self).model().todo.len() > 0,
        ensures
            final(self).well_formed(),
            final(self).model() == after_failure(old(self).model()),
    {
        self.todo.remove(0);
        self.fresh = 0;
        assert(task_models(self.todo@) =~= task_models(old(self).todo@).drop_first());
    }

    /// The page that is to be fetched for the identity of the book that was
    /// fetched, if any.
    pub fn manifest_to_fetch(&self, answer: &Json) -> (r: Option<i64>)
        requires
            self.model().todo.len() > 0,
        ensures
            r == wanted_manifest(self.model().todo[0], *answer),
    {
        assert(self.model().todo[0] == self.todo@[0].model());
        match &self.todo[0] {
            WalkTask::Book { shelf_kind, .. } => worker::manifest_to_fetch(answer, *shelf_kind),
            _ => None,
        }
    }

    /// Takes in what was fetched for the first task, and returns the row for it. A
    /// page without an id has none.
    pub fn answered(&mut self, answer: &Json, manifest: Option<&Json>, now: i64) -> (r: Result<
        WalkRow,
        String,
    >)
        requires
            old(self).well_formed(),
            old(self).model().todo.len() > 0,
        ensures
            final(self).well_formed(),
            final(self).model() == after_answer(old(self).model(), *answer, referred(manifest)),
            match r {
                Ok(row) => is_row_of(
                    row,
                    old(self).model().todo[0],
                    *answer,
                    referred(manifest),
                    now,
                ),
                Err(e) => old(self).model().todo[0] is Page && crate::json::int_of(
                    crate::json::member(*answer, "id"@),
                ) is None && e@ == "page has no id"@,
            },
    {
        let ghost before = self.model();
        let ghost task = before.todo[0];
        assert(task == self.todo@[0].model());
        let first = self.todo.remove(0);
        assert(task_models(self.todo@) =~= before.todo.drop_first());
        match first {
            WalkTask::Shelf(id) => {
                let mut books = shelf_books(answer);
                let up = shelf_tasks(id, &books);
                self.shelved.append(&mut books);
                self.queue(up);
                Ok(WalkRow::Shelf(shelf_row(id, answer, now)))
            },
            WalkTask::Book { book_id, shelf_id, shelf_kind } => {
                let identity: Option<String> = match manifest {
                    Some(page) => identity_of_page(page),
                    None => None,
                };
                let row = book_row(
                    book_id,
                    answer,
                    shelf_id,
                    shelf_kind,
                    text_ref(&identity),
                    now,
                );
                assert(text::opt_text(row.identity_ouid) == book_identity(
                    row.book_kind,
                    referred(manifest),
                ));
                let items = list_book_items(answer);
                let up = item_tasks(
                    book_id,
                    row.book_kind,
                    text_ref(&row.identity_ouid),
                    &items,
                );
                self.queue(up);
                Ok(WalkRow::Book(row))
            },
            WalkTask::Chapter { chapter_id, book_id, book_kind, identity_ouid } => {
                let row = chapter_row(
                    chapter_id,
                    answer,
                    book_id,
                    book_kind,
                    text_ref(&identity_ouid),
                    now,
                );
                let pages = chapter_page_ids(answer);
                let parents = PageParents {
                    book_id,
                    chapter_id: Some(chapter_id),
                    book_kind,
                    chapter_kind: Some(row.chapter_kind),
                    chapter_archive_year: row.archive_year,
                    identity_ouid: text_ref(&identity_ouid),
                };
                let up = page_tasks(&parents, &pages);
                self.queue(up);
                Ok(WalkRow::Chapter(row))
            },
            WalkTask::Page {
                page_id: _,
                book_id,
                chapter_id,
                book_kind,
                chapter_kind,
                chapter_archive_year,
                identity_ouid,
            } => {
                let parents = PageParents {
                    book_id,
                    chapter_id,
                    book_kind,
                    chapter_kind,
                    chapter_archive_year,
                    identity_ouid: text_ref(&identity_ouid),
                };
                self.queue(Vec::new());
                match page_rows(answer, &parents, now) {
                    Ok((row, cache)) => Ok(WalkRow::Page(row, cache)),
                    Err(e) => Err(e),
                }
            },
        }
    }

    /// Puts tasks that came up before the others.
    fn queue(&mut self, up: Vec<WalkTask>)
        ensures
            final(self).model().todo == task_models(up@) + old(self).model().todo,
            final(self).model().fresh == up@.len(),
            final(self).model().shelved == old(self).model().shelved,
            final(self).model().listed == old(self).model().listed,
            final(self).model().stopped == old(self).model().stopped,
    {
        let mut todo = up;
        self.fresh = todo.len();
        todo.append(&mut self.todo);
        self.todo = todo;
        assert(task_models(self.todo@) =~= task_models(up@) + task_models(old(self).todo@));
    }

    /// Leaves out what came up with the last answer, whose row could not be
    /// stored.
    pub fn not_stored(&mut self)
        requires
            old(self).well_formed(),
        ensures
            final(self).well_formed(),
            final(self).model() == after_lost_row(old(self).model()),
    {
        let ghost all = self.todo@;
        let rest = self.todo.split_off(self.fresh);
        self.todo = rest;
        self.fresh = 0;
        assert(task_models(self.todo@) =~= task_models(all).skip(old(self).fresh as int));
    }

    /// Takes in the ids of all books.
    pub fn books_listed(&mut self, all: &Vec<i64>)
        requires
            old(self).well_formed(),
        ensures
            final(self).well_formed(),
            final(self).model() == after_listing(old(self).model(), all@),
    {
        let loose = unshelved_books(all, &self.shelved);
        let mut tasks = loose_tasks(&loose);
        let ghost added = tasks@;
        self.todo.append(&mut tasks);
        self.listed = true;
        assert(task_models(self.todo@) =~= task_models(old(self).todo@) + task_models(added));
    }
}

// --- Laws ---

/// The tasks that a task brings up in a wiki that answers the steps so. A step
/// that is not answered brings nothing up.
pub open spec fn under(wiki: spec_fn(WalkStep) -> Option<Json>, task: TaskModel) -> Seq<TaskModel> {
    match wiki(step_of(task)) {
        Some(answer) => children(
            task,
            answer,
            match wanted_manifest(task, answer) {
                Some(id) => wiki(WalkStep::Page(id)),
                None => None,
            },
        ),
        None => Seq::empty(),
    }
}

/// How many levels of content there can be below a task.
pub open spec fn height(task: TaskModel) -> nat {
    match task {
        TaskModel::Shelf(_) => 3,
        TaskModel::Book { .. } => 2,
        TaskModel::Chapter { .. } => 1,
        TaskModel::Page { .. } => 0,
    }
}

/// The content of the wiki from the tasks down to `depth` levels: each task, right
/// after it what is below it, and then the next task.
pub open spec fn content_below(
    wiki: spec_fn(WalkStep) -> Option<Json>,
    tasks: Seq<TaskModel>,
    depth: nat,
) -> Seq<TaskModel>
    decreases depth, tasks.len(),
{
    if tasks.len() == 0 {
        Seq::empty()
    } else {
        seq![tasks[0]] + (if depth == 0 {
            Seq::empty()
        } else {
            content_below(wiki, under(wiki, tasks[0]), (depth - 1) as nat)
        }) + content_below(wiki, tasks.drop_first(), depth)
    }
}

/// All content of the wiki from the tasks down.
pub open spec fn all_content(wiki: spec_fn(WalkStep) -> Option<Json>, tasks: Seq<TaskModel>) -> Seq<
    TaskModel,
> {
    content_below(wiki, tasks, 3)
}

/// The tasks of a walk after `n` answers of the wiki, each of which could be
/// stored.
pub open spec fn todo_after(
    wiki: spec_fn(WalkStep) -> Option<Json>,
    todo: Seq<TaskModel>,
    n: nat,
) -> Seq<TaskModel>
    decreases n,
{
    if n == 0 {
        todo
    } else {
        let before = todo_after(wiki, todo, (n - 1) as nat);
        if before.len() == 0 {
            before
        } else {
            under(wiki, before[0]) + before.drop_first()
        }
    }
}

proof fn lemma_under_is_lower(wiki: spec_fn(WalkStep) -> Option<Json>, task: TaskModel, i: int)
    requires
        0 <= i < under(wiki, task).len(),
    ensures
        height(under(wiki, task)[i]) < height(task),
{
}

proof fn lemma_deep_enough(
    wiki: spec_fn(WalkStep) -> Option<Json>,
    tasks: Seq<TaskModel>,
    a: nat,
    b: nat,
)
    requires
        forall|i: int| 0 <= i < tasks.len() ==> height(#[trigger] tasks[i]) <= a,
        forall|i: int| 0 <= i < tasks.len() ==> height(#[trigger] tasks[i]) <= b,
    ensures
        content_below(wiki, tasks, a) == content_below(wiki, tasks, b),
    decreases a, tasks.len(),
{
    if tasks.len() > 0 {
        let first = tasks[0];
        let up = under(wiki, first);
        let rest = tasks.drop_first();
        assert forall|i: int| 0 <= i < rest.len() implies height(#[trigger] rest[i]) <= a
            && height(rest[i]) <= b by {
            assert(rest[i] == tasks[i + 1]);
        }
        lemma_deep_enough(wiki, rest, a, b);
        assert forall|i: int| 0 <= i < up.len() implies height(#[trigger] up[i]) < height(first) by {
            lemma_under_is_lower(wiki, first, i);
        }
        let empty = Seq::<TaskModel>::empty();
        if height(first) == 0 {
            if up.len() > 0 {
                lemma_under_is_lower(wiki, first, 0);
            }
            assert(up =~= empty);
        }
        if a > 0 && b > 0 {
            lemma_deep_enough(wiki, up, (a - 1) as nat, (b - 1) as nat);
        } else {
            assert(up =~= empty);
            if a > 0 {
                assert(content_below(wiki, up, (a - 1) as nat) == empty);
            }
            if b > 0 {
                assert(content_below(wiki, up, (b - 1) as nat) == empty);
            }
        }
    }
}

proof fn lemma_content_of_two(
    wiki: spec_fn(WalkStep) -> Option<Json>,
    a: Seq<TaskModel>,
    b: Seq<TaskModel>,
    depth: nat,
)
    ensures
        content_below(wiki, a + b, depth) == content_below(wiki, a, depth) + content_below(
            wiki,
            b,
            depth,
        ),
    decreases a.len(),
{
    if a.len() == 0 {
        assert(a + b =~= b);
        assert(content_below(wiki, a, depth) + content_below(wiki, b, depth) =~= content_below(
            wiki,
            b,
            depth,
        ));
    } else {
        assert((a + b)[0] == a[0]);
        assert((a + b).drop_first() =~= a.drop_first() + b);
        lemma_content_of_two(wiki, a.drop_first(), b, depth);
        assert(content_below(wiki, a + b, depth) =~= content_below(wiki, a, depth)
            + content_below(wiki, b, depth));
    }
}

proof fn lemma_content_of_next(wiki: spec_fn(WalkStep) -> Option<Json>, todo: Seq<TaskModel>)
    requires
        todo.len() > 0,
    ensures
        all_content(wiki, todo) == seq![todo[0]] + all_content(
            wiki,
            under(wiki, todo[0]) + todo.drop_first(),
        ),
{
    let up = under(wiki, todo[0]);
    assert forall|i: int| 0 <= i < up.len() implies height(#[trigger] up[i]) <= 2 by {
        lemma_under_is_lower(wiki, todo[0], i);
    }
    lemma_deep_enough(wiki, up, 2, 3);
    lemma_content_of_two(wiki, up, todo.drop_first(), 3);
    assert(all_content(wiki, todo) =~= seq![todo[0]] + all_content(wiki, up + todo.drop_first()));
}

proof fn lemma_content_left(
    wiki: spec_fn(WalkStep) -> Option<Json>,
    todo: Seq<TaskModel>,
    n: nat,
)
    requires
        n <= all_content(wiki, todo).len(),
    ensures
        all_content(wiki, todo_after(wiki, todo, n)) == all_content(wiki, todo).skip(n as int),
    decreases n,
{
    let all = all_content(wiki, todo);
    if n == 0 {
        assert(all.skip(0) =~= all);
    } else {
        let before = todo_after(wiki, todo, (n - 1) as nat);
        lemma_content_left(wiki, todo, (n - 1) as nat);
        assert(before.len() > 0);
        lemma_content_of_next(wiki, before);
        let left = all_content(wiki, todo_after(wiki, todo, n));
        assert(all.skip(n - 1) == seq![before[0]] + left);
        assert(left =~= all.skip(n - 1).skip(1));
        assert(all.skip(n - 1).skip(1) =~= all.skip(n as int));
    }
}

/// A walk that is not stopped takes the whole content below its tasks, one thing
/// with each step, followed by what is below it, and comes to an end.
pub proof fn law_walk_takes_all_content(
    wiki: spec_fn(WalkStep) -> Option<Json>,
    todo: Seq<TaskModel>,
    n: nat,
)
    ensures
        n < all_content(wiki, todo).len() ==> todo_after(wiki, todo, n).len() > 0 && todo_after(
            wiki,
            todo,
            n,
        )[0] == all_content(wiki, todo)[n as int],
        n >= all_content(wiki, todo).len() ==> todo_after(wiki, todo, n).len() == 0,
    decreases n,
{
    let all = all_content(wiki, todo);
    if n <= all.len() {
        let left = todo_after(wiki, todo, n);
        lemma_content_left(wiki, todo, n);
        assert(all.skip(n as int).len() == all.len() - n);
        if left.len() > 0 {
            assert(all_content(wiki, left).len() > 0);
            assert(all_content(wiki, left)[0] == left[0]);
        }
    } else {
        law_walk_takes_all_content(wiki, todo, (n - 1) as nat);
    }
}

/// A step of a walk whose answer could be stored, or could not be had, leaves the
/// tasks of the wiki's content.
pub proof fn law_walk_follows_the_wiki(
    wiki: spec_fn(WalkStep) -> Option<Json>,
    m: WalkModel,
)
    requires
        m.todo.len() > 0,
    ensures
        match wiki(step_of(m.todo[0])) {
            Some(answer) => after_answer(
                m,
                answer,
                match wanted_manifest(m.todo[0], answer) {
                    Some(id) => wiki(WalkStep::Page(id)),
                    None => None,
                },
            ).todo == todo_after(wiki, m.todo, 1),
            None => after_failure(m).todo == todo_after(wiki, m.todo, 1),
        },
{
    assert(todo_after(wiki, m.todo, 0) == m.todo);
    assert(todo_after(wiki, m.todo, 1) == under(wiki, m.todo[0]) + m.todo.drop_first());
    assert(Seq::<TaskModel>::empty() + m.todo.drop_first() =~= m.todo.drop_first());
}

/// An answer whose row could not be stored counts as none: the walk goes on with
/// the task after it.
pub proof fn law_lost_row_ends_the_branch(m: WalkModel, answer: Json, manifest: Option<Json>)
    requires
        m.todo.len() > 0,
    ensures
        after_lost_row(after_answer(m, answer, manifest)).todo == after_failure(m).todo,
{
    let up = children(m.todo[0], answer, manifest);
    assert((up + m.todo.drop_first()).skip(up.len() as int) =~= m.todo.drop_first());
}

pub(crate) proof fn lemma_content_holds_tasks(
    wiki: spec_fn(WalkStep) -> Option<Json>,
    tasks: Seq<TaskModel>,
    depth: nat,
    task: TaskModel,
)
    requires
        tasks.contains(task),
    ensures
        content_below(wiki, tasks, depth).contains(task),
    decreases tasks.len(),
{
    let all = content_below(wiki, tasks, depth);
    let i = choose|i: int| 0 <= i < tasks.len() && tasks[i] == task;
    if i == 0 {
        assert(all[0] == task);
    } else {
        let rest = tasks.drop_first();
        assert(rest[i - 1] == task);
        lemma_content_holds_tasks(wiki, rest, depth, task);
        let later = content_below(wiki, rest, depth);
        let k = choose|k: int| 0 <= k < later.len() && later[k] == task;
        assert(all[all.len() - later.len() + k] == later[k]);
    }
}

proof fn lemma_content_goes_down(
    wiki: spec_fn(WalkStep) -> Option<Json>,
    tasks: Seq<TaskModel>,
    depth: nat,
    task: TaskModel,
    below: TaskModel,
)
    requires
        forall|i: int| 0 <= i < tasks.len() ==> height(#[trigger] tasks[i]) <= depth,
        content_below(wiki, tasks, depth).contains(task),
        under(wiki, task).contains(below),
    ensures
        content_below(wiki, tasks, depth).contains(below),
    decreases depth, tasks.len(),
{
    let all = content_below(wiki, tasks, depth);
    let k = choose|k: int| 0 <= k < all.len() && all[k] == task;
    let first = tasks[0];
    let up = under(wiki, first);
    let rest = tasks.drop_first();
    let later = content_below(wiki, rest, depth);
    assert forall|i: int| 0 <= i < rest.len() implies height(#[trigger] rest[i]) <= depth by {
        assert(rest[i] == tasks[i + 1]);
    }
    let j = choose|j: int| 0 <= j < under(wiki, task).len() && under(wiki, task)[j] == below;
    lemma_under_is_lower(wiki, task, j);
    if depth == 0 {
        if k == 0 {
            assert(task == first);
        } else {
            assert(later[k - 1] == task);
            lemma_content_goes_down(wiki, rest, depth, task, below);
            let n = choose|n: int| 0 <= n < later.len() && later[n] == below;
            assert(all[n + 1] == below);
        }
        return ;
    }
    let inner = content_below(wiki, up, (depth - 1) as nat);
    assert forall|i: int| 0 <= i < up.len() implies height(#[trigger] up[i]) <= depth - 1 by {
        lemma_under_is_lower(wiki, first, i);
    }
    if k == 0 {
        assert(task == first);
        lemma_content_holds_tasks(wiki, up, (depth - 1) as nat, below);
        let n = choose|n: int| 0 <= n < inner.len() && inner[n] == below;
        assert(all[n + 1] == below);
    } else if k < 1 + inner.len() {
        assert(inner[k - 1] == task);
        lemma_content_goes_down(wiki, up, (depth - 1) as nat, task, below);
        let n = choose|n: int| 0 <= n < inner.len() && inner[n] == below;
        assert(all[n + 1] == below);
    } else {
        assert(later[k - 1 - inner.len()] == task);
        lemma_content_goes_down(wiki, rest, depth, task, below);
        let n = choose|n: int| 0 <= n < later.len() && later[n] == below;
        assert(all[1 + inner.len() + n] == below);
    }
}

/// What a walk takes has everything that it brings up with it: the books of its
/// shelves, the chapters and pages of its books, the pages of its chapters.
pub proof fn law_walk_goes_down(
    wiki: spec_fn(WalkStep) -> Option<Json>,
    todo: Seq<TaskModel>,
    task: TaskModel,
    below: TaskModel,
)
    requires
        all_content(wiki, todo).contains(task),
        under(wiki, task).contains(below),
    ensures
        all_content(wiki, todo).contains(below),
{
    lemma_content_goes_down(wiki, todo, 3, task, below);
}

/// A page that stands in a chapter of a book on a shelf is taken, with the kinds
/// of its book and its chapter and the identity of its book.
pub proof fn law_walk_reaches_chapter_pages(
    wiki: spec_fn(WalkStep) -> Option<Json>,
    todo: Seq<TaskModel>,
    shelf_id: i64,
    book_id: i64,
    chapter_id: i64,
    page_id: i64,
)
    requires
        todo.contains(TaskModel::Shelf(shelf_id)),
        wiki(WalkStep::Shelf(shelf_id)) matches Some(shelf) && content::member_ids(
            shelf,
            "books"@,
        ).contains(book_id),
        wiki(WalkStep::Book(book_id)) matches Some(book) && worker::items_of_book(book).contains(
            BookItem::Chapter(chapter_id),
        ),
        wiki(WalkStep::Chapter(chapter_id)) matches Some(chapter) && content::member_ids(
            chapter,
            "pages"@,
        ).contains(page_id),
    ensures
        ({
            let book = wiki(WalkStep::Book(book_id))->0;
            let chapter = wiki(WalkStep::Chapter(chapter_id))->0;
            let kind = worker::kind_of_book(book, ShelfKind::Unclassified);
            let (chapter_kind, year) = worker::class_of_chapter(chapter, kind);
            all_content(wiki, todo).contains(
                TaskModel::Page {
                    page_id,
                    parents: ParentsModel {
                        book_id,
                        chapter_id: Some(chapter_id),
                        book_kind: kind,
                        chapter_kind: Some(chapter_kind),
                        chapter_archive_year: year,
                        identity_ouid: identity_in(wiki, book_id),
                    },
                },
            )
        }),
{
    let shelf = wiki(WalkStep::Shelf(shelf_id))->0;
    let chapter = wiki(WalkStep::Chapter(chapter_id))->0;
    let book_task = law_walk_reaches_book(wiki, todo, shelf_id, book_id);
    let book = wiki(WalkStep::Book(book_id))->0;
    let kind = worker::kind_of_book(book, ShelfKind::Unclassified);
    let identity_ouid = identity_in(wiki, book_id);
    let item = item_task(book_id, kind, identity_ouid);
    let chapter_task = item(BookItem::Chapter(chapter_id));
    let i = choose|i: int|
        0 <= i < worker::items_of_book(book).len() && worker::items_of_book(book)[i]
            == BookItem::Chapter(chapter_id);
    assert(under(wiki, book_task)[i] == chapter_task);
    law_walk_goes_down(wiki, todo, book_task, chapter_task);
    let ids = content::member_ids(chapter, "pages"@);
    let j = choose|j: int| 0 <= j < ids.len() && ids[j] == page_id;
    let (chapter_kind, year) = worker::class_of_chapter(chapter, kind);
    let parents = ParentsModel {
        book_id,
        chapter_id: Some(chapter_id),
        book_kind: kind,
        chapter_kind: Some(chapter_kind),
        chapter_archive_year: year,
        identity_ouid,
    };
    assert(under(wiki, chapter_task)[j] == page_task(parents)(page_id));
    law_walk_goes_down(wiki, todo, chapter_task, TaskModel::Page { page_id, parents });
}

/// A page at the root of a book on a shelf is taken, with the kind and the
/// identity of its book.
pub proof fn law_walk_reaches_root_pages(
    wiki: spec_fn(WalkStep) -> Option<Json>,
    todo: Seq<TaskModel>,
    shelf_id: i64,
    book_id: i64,
    page_id: i64,
)
    requires
        todo.contains(TaskModel::Shelf(shelf_id)),
        wiki(WalkStep::Shelf(shelf_id)) matches Some(shelf) && content::member_ids(
            shelf,
            "books"@,
        ).contains(book_id),
        wiki(WalkStep::Book(book_id)) matches Some(book) && worker::items_of_book(book).contains(
            BookItem::Page(page_id),
        ),
    ensures
        all_content(wiki, todo).contains(
            TaskModel::Page {
                page_id,
                parents: ParentsModel {
                    book_id,
                    chapter_id: None,
                    book_kind: worker::kind_of_book(
                        wiki(WalkStep::Book(book_id))->0,
                        ShelfKind::Unclassified,
                    ),
                    chapter_kind: None,
                    chapter_archive_year: None,
                    identity_ouid: identity_in(wiki, book_id),
                },
            },
        ),
{
    let book_task = law_walk_reaches_book(wiki, todo, shelf_id, book_id);
    let book = wiki(WalkStep::Book(book_id))->0;
    let kind = worker::kind_of_book(book, ShelfKind::Unclassified);
    let item = item_task(book_id, kind, identity_in(wiki, book_id));
    let i = choose|i: int|
        0 <= i < worker::items_of_book(book).len() && worker::items_of_book(book)[i]
            == BookItem::Page(page_id);
    assert(under(wiki, book_task)[i] == item(BookItem::Page(page_id)));
    law_walk_goes_down(wiki, todo, book_task, item(BookItem::Page(page_id)));
}

/// The identity that the manifest page of a book states in the wiki.
pub open spec fn identity_in(wiki: spec_fn(WalkStep) -> Option<Json>, book_id: i64) -> Option<
    Seq<char>,
> {
    match wiki(WalkStep::Book(book_id)) {
        Some(book) => {
            let kind = worker::kind_of_book(book, ShelfKind::Unclassified);
            book_identity(
                kind,
                match worker::manifest_of(book) {
                    Some(id) => wiki(WalkStep::Page(id)),
                    None => None,
                },
            )
        },
        None => None,
    }
}

/// A book on a shelf of the walk is taken.
pub proof fn law_walk_reaches_book(
    wiki: spec_fn(WalkStep) -> Option<Json>,
    todo: Seq<TaskModel>,
    shelf_id: i64,
    book_id: i64,
) -> (task: TaskModel)
    requires
        todo.contains(TaskModel::Shelf(shelf_id)),
        wiki(WalkStep::Shelf(shelf_id)) matches Some(shelf) && content::member_ids(
            shelf,
            "books"@,
        ).contains(book_id),
    ensures
        task == shelved_book(shelf_id)(book_id),
        all_content(wiki, todo).contains(task),
{
    let shelf = wiki(WalkStep::Shelf(shelf_id))->0;
    lemma_content_holds_tasks(wiki, todo, 3, TaskModel::Shelf(shelf_id));
    let ids = content::member_ids(shelf, "books"@);
    let i = choose|i: int| 0 <= i < ids.len() && ids[i] == book_id;
    let task = shelved_book(shelf_id)(book_id);
    assert(under(wiki, TaskModel::Shelf(shelf_id))[i] == task);
    law_walk_goes_down(wiki, todo, TaskModel::Shelf(shelf_id), task);
    task
}

/// Every book that is listed is known to stand on a shelf or becomes a task.
pub proof fn law_walk_reaches_loose_books(m: WalkModel, all: Seq<i64>, id: i64)
    requires
        all.contains(id),
    ensures
        m.shelved.contains(id) || after_listing(m, all).todo.contains(loose_book()(id)),
{
    worker::law_walk_reaches_every_book(all, m.shelved, id);
    if !m.shelved.contains(id) {
        let loose = all.filter(|b: i64| !m.shelved.contains(b));
        let i = choose|i: int| 0 <= i < loose.len() && loose[i] == id;
        let todo = after_listing(m, all).todo;
        assert(todo[m.todo.len() + i] == loose_book()(id));
    }
}

} // verus!
