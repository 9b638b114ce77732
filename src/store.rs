use vstd::prelude::*;
use vstd::string::StringExecFns;

use crate::books::{
    book_key, book_matches, book_passes, book_sort_column, book_sort_key, book_views, merge_book,
    Book, BookView, NewBook, SearchParams, UpdateBook,
};
use crate::borrowings::{
    borrowing_views, BorrowParams, BorrowedBook, BorrowedBookView, Borrowing, BorrowingView,
};
use crate::clock::today;
use crate::members::{
    member_key, member_matches, member_passes, member_sort_column, member_sort_key,
    member_views, merge_member, Member, MemberSearchParams, MemberView, NewMember, UpdateMember,
};
use crate::params::{
    effective_order, effective_status, limit_spec, offset_spec, status_accepts, Status,
};
use crate::sort::{
    arrange, is_ordering, key_views, sorted_order, sorted_positions, window, KeyView, SortKey,
};
use crate::text::opt_view;

verus! {

/// Why a store operation was refused.
#[derive(Clone, Copy, Debug, PartialEq, Eq, Structural)]
pub enum LibraryError {
    /// No member has the given id.
    MemberNotFound,
    /// No book has the given id.
    BookNotFound,
    /// The book is out on loan.
    BookUnavailable,
    /// The member already holds an open loan of the book.
    AlreadyBorrowed,
    /// The book is not marked as borrowed.
    NotBorrowed,
    /// The book is marked as borrowed but no open loan of it exists.
    NoOpenLoan,
    /// No loan has the given id.
    BorrowingNotFound,
    /// The book cannot be removed while a loan of it is open.
    BookOnLoan,
    /// The member cannot be removed while holding an open loan.
    MemberOnLoan,
    /// A book's stored status must be `Available` or `Borrowed`.
    InvalidStatus,
    /// No id is left for a new row.
    IdsExhausted,
}

/// The three tables of the catalog and the next id of each.
pub struct Library {
    books: Vec<Book>,
    members: Vec<Member>,
    borrowings: Vec<Borrowing>,
    next_book_id: i32,
    next_member_id: i32,
    next_borrowing_id: i32,
}

pub struct LibraryView {
    pub books: Seq<BookView>,
    pub members: Seq<MemberView>,
    pub borrowings: Seq<BorrowingView>,
    pub next_book_id: i32,
    pub next_member_id: i32,
    pub next_borrowing_id: i32,
}

impl View for Library {
    type V = LibraryView;

    closed spec fn view(&self) -> LibraryView {
        LibraryView {
            books: book_views(self.books@),
            members: member_views(self.members@),
            borrowings: borrowing_views(self.borrowings@),
            next_book_id: self.next_book_id,
            next_member_id: self.next_member_id,
            next_borrowing_id: self.next_borrowing_id,
        }
    }
}

pub open spec fn has_book(s: LibraryView, id: i32) -> bool {
    exists|i: int| 0 <= i < s.books.len() && #[trigger] s.books[i].id == id
}

pub open spec fn book_index(s: LibraryView, id: i32) -> int {
    choose|i: int| 0 <= i < s.books.len() && #[trigger] s.books[i].id == id
}

pub open spec fn has_member(s: LibraryView, id: i32) -> bool {
    exists|i: int| 0 <= i < s.members.len() && #[trigger] s.members[i].id == id
}

pub open spec fn member_index(s: LibraryView, id: i32) -> int {
    choose|i: int| 0 <= i < s.members.len() && #[trigger] s.members[i].id == id
}

pub open spec fn has_row(s: LibraryView, id: i32) -> bool {
    exists|i: int| 0 <= i < s.borrowings.len() && #[trigger] s.borrowings[i].id == id
}

pub open spec fn row_index(s: LibraryView, id: i32) -> int {
    choose|i: int| 0 <= i < s.borrowings.len() && #[trigger] s.borrowings[i].id == id
}

/// Row `r` is an open loan of book `book`.
pub open spec fn is_open_for(r: BorrowingView, book: i32) -> bool {
    r.book_id == Some(book) && r.return_date is None
}

pub open spec fn has_open_loan(s: LibraryView, book: i32) -> bool {
    exists|j: int| 0 <= j < s.borrowings.len() && is_open_for(#[trigger] s.borrowings[j], book)
}

pub open spec fn has_open_pair(s: LibraryView, book: i32, member: i32) -> bool {
    exists|j: int|
        0 <= j < s.borrowings.len() && is_open_for(#[trigger] s.borrowings[j], book)
            && s.borrowings[j].member_id == Some(member)
}

pub open spec fn member_has_open_loan(s: LibraryView, member: i32) -> bool {
    exists|j: int|
        0 <= j < s.borrowings.len() && #[trigger] s.borrowings[j].member_id == Some(member)
            && s.borrowings[j].return_date is None
}

/// The first open loan of `book` at or after `start`; the length when there is none.
pub open spec fn first_open(rows: Seq<BorrowingView>, book: i32, start: int) -> int
    decreases rows.len() - start,
{
    if start >= rows.len() {
        rows.len() as int
    } else if is_open_for(rows[start], book) {
        start
    } else {
        first_open(rows, book, start + 1)
    }
}

pub proof fn lemma_first_open(rows: Seq<BorrowingView>, book: i32, start: int)
    requires
        0 <= start <= rows.len(),
    ensures
        start <= first_open(rows, book, start) <= rows.len(),
        first_open(rows, book, start) < rows.len() ==> is_open_for(
            rows[first_open(rows, book, start)],
            book,
        ),
        forall|k: int| start <= k < first_open(rows, book, start) ==> !is_open_for(#[trigger] rows[k], book),
    decreases rows.len() - start,
{
    if start < rows.len() && !is_open_for(rows[start], book) {
        lemma_first_open(rows, book, start + 1);
    }
}

/// Ids are unique in each table and below the next id, and no book is
/// stored with the `All` sentinel.
pub open spec fn well_formed(s: LibraryView) -> bool {
    &&& forall|i: int, j: int|
        0 <= i < s.books.len() && 0 <= j < s.books.len() && #[trigger] s.books[i].id
            == #[trigger] s.books[j].id ==> i == j
    &&& forall|i: int, j: int|
        0 <= i < s.members.len() && 0 <= j < s.members.len() && #[trigger] s.members[i].id
            == #[trigger] s.members[j].id ==> i == j
    &&& forall|i: int, j: int|
        0 <= i < s.borrowings.len() && 0 <= j < s.borrowings.len() && #[trigger] s.borrowings[i].id
            == #[trigger] s.borrowings[j].id ==> i == j
    &&& forall|i: int| 0 <= i < s.books.len() ==> #[trigger] s.books[i].id < s.next_book_id
    &&& forall|i: int| 0 <= i < s.members.len() ==> #[trigger] s.members[i].id < s.next_member_id
    &&& forall|i: int|
        0 <= i < s.borrowings.len() ==> #[trigger] s.borrowings[i].id < s.next_borrowing_id
    &&& forall|i: int| 0 <= i < s.books.len() ==> #[trigger] s.books[i].status != Status::All
    &&& forall|j: int|
        0 <= j < s.borrowings.len() && #[trigger] s.borrowings[j].book_id is Some
            ==> s.borrowings[j].book_id->0 < s.next_book_id
    &&& forall|j: int|
        0 <= j < s.borrowings.len() && #[trigger] s.borrowings[j].member_id is Some
            ==> s.borrowings[j].member_id->0 < s.next_member_id
}

/// A book is marked borrowed exactly when an open loan of it exists, and no
/// two open loans are of the same book.
pub open spec fn consistent(s: LibraryView) -> bool {
    &&& forall|i: int|
        0 <= i < s.books.len() ==> (#[trigger] s.books[i].status == Status::Borrowed
            <==> has_open_loan(s, s.books[i].id))
    &&& forall|j: int, k: int|
        0 <= j < s.borrowings.len() && 0 <= k < s.borrowings.len() && j != k
            && #[trigger] s.borrowings[j].return_date is None
            && #[trigger] s.borrowings[k].return_date is None
            && s.borrowings[j].book_id is Some ==> s.borrowings[j].book_id != s.borrowings[k].book_id
}

/// Which check a lending request fails first, if any.
pub open spec fn borrow_outcome(s: LibraryView, book: i32, member: i32) -> Result<(), LibraryError> {
    if !has_member(s, member) {
        Err(LibraryError::MemberNotFound)
    } else if !has_book(s, book) {
        Err(LibraryError::BookNotFound)
    } else if s.books[book_index(s, book)].status != Status::Available {
        Err(LibraryError::BookUnavailable)
    } else if has_open_pair(s, book, member) {
        Err(LibraryError::AlreadyBorrowed)
    } else if s.next_borrowing_id == i32::MAX {
        Err(LibraryError::IdsExhausted)
    } else {
        Ok(())
    }
}

/// The store after a loan of `book` to `member` on day `day`: a new open
/// row, and the book marked borrowed.
pub open spec fn after_borrow(s: LibraryView, book: i32, member: i32, day: i32) -> LibraryView {
    let i = book_index(s, book);
    LibraryView {
        books: s.books.update(i, BookView { status: Status::Borrowed, ..s.books[i] }),
        borrowings: s.borrowings.push(
            BorrowingView {
                id: s.next_borrowing_id,
                book_id: Some(book),
                member_id: Some(member),
                borrow_date: day,
                return_date: None,
            },
        ),
        next_borrowing_id: (s.next_borrowing_id + 1) as i32,
        ..s
    }
}

/// Which check a return fails first, if any.
pub open spec fn return_outcome(s: LibraryView, book: i32) -> Result<(), LibraryError> {
    if !has_book(s, book) {
        Err(LibraryError::BookNotFound)
    } else if s.books[book_index(s, book)].status != Status::Borrowed {
        Err(LibraryError::NotBorrowed)
    } else if !has_open_loan(s, book) {
        Err(LibraryError::NoOpenLoan)
    } else {
        Ok(())
    }
}

/// The store after `book` comes back on day `day`: its first open loan is
/// closed on that day, and the book marked available.
pub open spec fn after_return(s: LibraryView, book: i32, day: i32) -> LibraryView {
    let i = book_index(s, book);
    let j = first_open(s.borrowings, book, 0);
    LibraryView {
        books: s.books.update(i, BookView { status: Status::Available, ..s.books[i] }),
        borrowings: s.borrowings.update(j, BorrowingView { return_date: Some(day), ..s.borrowings[j] }),
        ..s
    }
}

/// The store after loan row `id` is removed: the book it named, if still in
/// the catalog, is marked available whatever the row's state was.
pub open spec fn after_delete_borrowing(s: LibraryView, id: i32) -> LibraryView {
    let j = row_index(s, id);
    let rows = s.borrowings.remove(j);
    match s.borrowings[j].book_id {
        Some(b) if has_book(s, b) => {
            let i = book_index(s, b);
            LibraryView {
                books: s.books.update(i, BookView { status: Status::Available, ..s.books[i] }),
                borrowings: rows,
                ..s
            }
        },
        _ => LibraryView { borrowings: rows, ..s },
    }
}

} // verus!

verus! {

pub proof fn lemma_borrow_keeps_consistent(s: LibraryView, book: i32, member: i32, day: i32)
    requires
        well_formed(s),
        consistent(s),
        borrow_outcome(s, book, member) is Ok,
    ensures
        consistent(after_borrow(s, book, member, day)),
{
    let t = after_borrow(s, book, member, day);
    let bi = book_index(s, book);
    let n = s.borrowings.len() as int;
    assert(s.books[bi].id == book);
    assert(!has_open_loan(s, book));
    assert(is_open_for(t.borrowings[n], book));
    assert forall|i: int|
        0 <= i < t.books.len() implies (#[trigger] t.books[i].status == Status::Borrowed
        <==> has_open_loan(t, t.books[i].id)) by {
        let id = t.books[i].id;
        if i == bi {
            assert(has_open_loan(t, id));
        } else {
            assert(s.books[i].id != book);
            assert(t.books[i] == s.books[i]);
            if has_open_loan(t, id) {
                let j = choose|j: int|
                    0 <= j < t.borrowings.len() && is_open_for(#[trigger] t.borrowings[j], id);
                assert(j < n);
                assert(is_open_for(s.borrowings[j], id));
            }
            if has_open_loan(s, id) {
                let j = choose|j: int|
                    0 <= j < s.borrowings.len() && is_open_for(#[trigger] s.borrowings[j], id);
                assert(is_open_for(t.borrowings[j], id));
            }
        }
    }
    assert forall|j: int, k: int|
        0 <= j < t.borrowings.len() && 0 <= k < t.borrowings.len() && j != k
            && #[trigger] t.borrowings[j].return_date is None
            && #[trigger] t.borrowings[k].return_date is None
            && t.borrowings[j].book_id is Some implies t.borrowings[j].book_id
        != t.borrowings[k].book_id by {
        if j == n {
            assert(!is_open_for(s.borrowings[k], book));
        } else if k == n {
            assert(!is_open_for(s.borrowings[j], book));
        }
    }
}

pub proof fn lemma_return_keeps_consistent(s: LibraryView, book: i32, day: i32)
    requires
        well_formed(s),
        consistent(s),
        return_outcome(s, book) is Ok,
    ensures
        consistent(after_return(s, book, day)),
{
    let t = after_return(s, book, day);
    let bi = book_index(s, book);
    let j0 = first_open(s.borrowings, book, 0);
    lemma_first_open(s.borrowings, book, 0);
    let w = choose|j: int| 0 <= j < s.borrowings.len() && is_open_for(#[trigger] s.borrowings[j], book);
    assert(j0 < s.borrowings.len()) by {
        if j0 >= s.borrowings.len() {
            assert(!is_open_for(s.borrowings[w], book));
        }
    }
    assert(s.books[bi].id == book);
    assert forall|j: int| 0 <= j < t.borrowings.len() implies !is_open_for(#[trigger] t.borrowings[j], book) by {
        if j != j0 && is_open_for(t.borrowings[j], book) {
            assert(t.borrowings[j] == s.borrowings[j]);
        }
    }
    assert forall|i: int|
        0 <= i < t.books.len() implies (#[trigger] t.books[i].status == Status::Borrowed
        <==> has_open_loan(t, t.books[i].id)) by {
        let id = t.books[i].id;
        if i == bi {
            if has_open_loan(t, id) {
                let j = choose|j: int|
                    0 <= j < t.borrowings.len() && is_open_for(#[trigger] t.borrowings[j], id);
                assert(!is_open_for(t.borrowings[j], book));
            }
        } else {
            assert(s.books[i].id != book);
            assert(t.books[i] == s.books[i]);
            if has_open_loan(t, id) {
                let j = choose|j: int|
                    0 <= j < t.borrowings.len() && is_open_for(#[trigger] t.borrowings[j], id);
                assert(j != j0);
                assert(is_open_for(s.borrowings[j], id));
            }
            if has_open_loan(s, id) {
                let j = choose|j: int|
                    0 <= j < s.borrowings.len() && is_open_for(#[trigger] s.borrowings[j], id);
                assert(j != j0);
                assert(is_open_for(t.borrowings[j], id));
            }
        }
    }
    assert forall|j: int, k: int|
        0 <= j < t.borrowings.len() && 0 <= k < t.borrowings.len() && j != k
            && #[trigger] t.borrowings[j].return_date is None
            && #[trigger] t.borrowings[k].return_date is None
            && t.borrowings[j].book_id is Some implies t.borrowings[j].book_id
        != t.borrowings[k].book_id by {
        assert(j != j0 && k != j0);
        assert(t.borrowings[j] == s.borrowings[j]);
        assert(t.borrowings[k] == s.borrowings[k]);
    }
}

impl Library {
    /// An empty catalog.
    pub fn new() -> (r: Library)
        ensures
            well_formed(r@),
            consistent(r@),
            r@.books.len() == 0,
            r@.members.len() == 0,
            r@.borrowings.len() == 0,
            r@.next_book_id == 1,
            r@.next_member_id == 1,
            r@.next_borrowing_id == 1,
    {
        Library {
            books: Vec::new(),
            members: Vec::new(),
            borrowings: Vec::new(),
            next_book_id: 1,
            next_member_id: 1,
            next_borrowing_id: 1,
        }
    }

    fn find_book(&self, id: i32) -> (r: Option<usize>)
        requires
            well_formed(self@),
        ensures
            match r {
                Some(i) => has_book(self@, id) && i == book_index(self@, id) && i
                    < self@.books.len(),
                None => !has_book(self@, id),
            },
    {
        let mut i: usize = 0;
        while i < self.books.len()
            invariant
                well_formed(self@),
                i <= self@.books.len(),
                forall|k: int| 0 <= k < i ==> #[trigger] self@.books[k].id != id,
            decreases self@.books.len() - i,
        {
            if self.books[i].id == id {
                assert(self@.books[i as int].id == id);
                return Some(i);
            }
            i = i + 1;
        }
        None
    }

    fn find_member(&self, id: i32) -> (r: Option<usize>)
        requires
            well_formed(self@),
        ensures
            match r {
                Some(i) => has_member(self@, id) && i == member_index(self@, id) && i
                    < self@.members.len(),
                None => !has_member(self@, id),
            },
    {
        let mut i: usize = 0;
        while i < self.members.len()
            invariant
                well_formed(self@),
                i <= self@.members.len(),
                forall|k: int| 0 <= k < i ==> #[trigger] self@.members[k].id != id,
            decreases self@.members.len() - i,
        {
            if self.members[i].id == id {
                assert(self@.members[i as int].id == id);
                return Some(i);
            }
            i = i + 1;
        }
        None
    }

    fn find_row(&self, id: i32) -> (r: Option<usize>)
        requires
            well_formed(self@),
        ensures
            match r {
                Some(i) => has_row(self@, id) && i == row_index(self@, id) && i
                    < self@.borrowings.len(),
                None => !has_row(self@, id),
            },
    {
        let mut i: usize = 0;
        while i < self.borrowings.len()
            invariant
                well_formed(self@),
                i <= self@.borrowings.len(),
                forall|k: int| 0 <= k < i ==> #[trigger] self@.borrowings[k].id != id,
            decreases self@.borrowings.len() - i,
        {
            if self.borrowings[i].id == id {
                assert(self@.borrowings[i as int].id == id);
                return Some(i);
            }
            i = i + 1;
        }
        None
    }

    fn find_open(&self, book: i32) -> (r: usize)
        ensures
            r == first_open(self@.borrowings, book, 0),
    {
        let ghost rows = self@.borrowings;
        let mut i: usize = 0;
        while i < self.borrowings.len()
            invariant
                rows == self@.borrowings,
                i <= rows.len(),
                first_open(rows, book, 0) == first_open(rows, book, i as int),
            decreases rows.len() - i,
        {
            if self.borrowings[i].book_id == Some(book) && self.borrowings[i].return_date.is_none() {
                return i;
            }
            i = i + 1;
        }
        i
    }

    fn open_pair_exists(&self, book: i32, member: i32) -> (r: bool)
        ensures
            r == has_open_pair(self@, book, member),
    {
        let mut i: usize = 0;
        while i < self.borrowings.len()
            invariant
                i <= self@.borrowings.len(),
                forall|k: int|
                    0 <= k < i ==> !(is_open_for(#[trigger] self@.borrowings[k], book)
                        && self@.borrowings[k].member_id == Some(member)),
            decreases self@.borrowings.len() - i,
        {
            if self.borrowings[i].book_id == Some(book) && self.borrowings[i].return_date.is_none()
                && self.borrowings[i].member_id == Some(member) {
                assert(is_open_for(self@.borrowings[i as int], book));
                return true;
            }
            i = i + 1;
        }
        false
    }

    /// Lends book `book_id` to member `member_id` on day `day`. The checks
    /// run in this order: the member exists, the book exists, the book is
    /// available, the member holds no open loan of it. On success the new
    /// loan's id comes back, and the new row and the book's status land
    /// together; on failure nothing changes.
    pub fn borrow(&mut self, book_id: i32, member_id: i32, day: i32) -> (r: Result<i32, LibraryError>)
        requires
            well_formed(old(self)@),
        ensures
            well_formed(final(self)@),
            consistent(old(self)@) ==> consistent(final(self)@),
            match borrow_outcome(old(self)@, book_id, member_id) {
                Ok(_) => r == Ok::<i32, LibraryError>(old(self)@.next_borrowing_id) && final(self)@
                    == after_borrow(old(self)@, book_id, member_id, day),
                Err(e) => r == Err::<i32, LibraryError>(e) && final(self)@ == old(self)@,
            },
    {
        if self.find_member(member_id).is_none() {
            return Err(LibraryError::MemberNotFound);
        }
        let bi = match self.find_book(book_id) {
            Some(i) => i,
            None => return Err(LibraryError::BookNotFound),
        };
        if self.books[bi].status != Status::Available {
            return Err(LibraryError::BookUnavailable);
        }
        if self.open_pair_exists(book_id, member_id) {
            return Err(LibraryError::AlreadyBorrowed);
        }
        if self.next_borrowing_id == i32::MAX {
            return Err(LibraryError::IdsExhausted);
        }
        let ghost s = self@;
        let id = self.next_borrowing_id;
        self.borrowings.push(
            Borrowing {
                id,
                book_id: Some(book_id),
                member_id: Some(member_id),
                borrow_date: day,
                return_date: None,
            },
        );
        self.books[bi].status = Status::Borrowed;
        self.next_borrowing_id = id + 1;
        proof {
            let t = after_borrow(s, book_id, member_id, day);
            assert(self@.books =~= t.books);
            assert(self@.borrowings =~= t.borrowings);
            if consistent(s) {
                lemma_borrow_keeps_consistent(s, book_id, member_id, day);
            }
        }
        Ok(id)
    }

    /// Takes book `book_id` back on day `day`: the book must exist and be
    /// marked borrowed, and an open loan of it must exist. On success that
    /// loan is closed on `day` and the book marked available, together; on
    /// failure nothing changes.
    pub fn return_book(&mut self, book_id: i32, day: i32) -> (r: Result<(), LibraryError>)
        requires
            well_formed(old(self)@),
        ensures
            well_formed(final(self)@),
            consistent(old(self)@) ==> consistent(final(self)@),
            r == return_outcome(old(self)@, book_id),
            r is Ok ==> final(self)@ == after_return(old(self)@, book_id, day),
            r is Err ==> final(self)@ == old(self)@,
    {
        let bi = match self.find_book(book_id) {
            Some(i) => i,
            None => return Err(LibraryError::BookNotFound),
        };
        if self.books[bi].status != Status::Borrowed {
            return Err(LibraryError::NotBorrowed);
        }
        let j = self.find_open(book_id);
        proof {
            lemma_first_open(self@.borrowings, book_id, 0);
        }
        if j == self.borrowings.len() {
            proof {
                if has_open_loan(self@, book_id) {
                    let w = choose|w: int|
                        0 <= w < self@.borrowings.len() && is_open_for(
                            #[trigger] self@.borrowings[w],
                            book_id,
                        );
                    assert(!is_open_for(self@.borrowings[w], book_id));
                }
            }
            return Err(LibraryError::NoOpenLoan);
        }
        let ghost s = self@;
        proof {
            assert(is_open_for(s.borrowings[j as int], book_id));
        }
        self.books[bi].status = Status::Available;
        self.borrowings[j].return_date = Some(day);
        proof {
            let t = after_return(s, book_id, day);
            assert(self@.books =~= t.books);
            assert(self@.borrowings =~= t.borrowings);
            if consistent(s) {
                lemma_return_keeps_consistent(s, book_id, day);
            }
        }
        Ok(())
    }

    /// Removes loan row `id` outright and marks the book it named available,
    /// whatever state the row was in. This is an administrative correction,
    /// not a step of the lending cycle: it can leave a book marked available
    /// while another open loan of it remains.
    pub fn delete_borrowing(&mut self, id: i32) -> (r: Result<(), LibraryError>)
        requires
            well_formed(old(self)@),
        ensures
            well_formed(final(self)@),
            r is Ok <==> has_row(old(self)@, id),
            r is Err ==> r == Err::<(), LibraryError>(LibraryError::BorrowingNotFound) && final(self)@
                == old(self)@,
            r is Ok ==> final(self)@ == after_delete_borrowing(old(self)@, id),
    {
        let j = match self.find_row(id) {
            Some(j) => j,
            None => return Err(LibraryError::BorrowingNotFound),
        };
        let ghost s = self@;
        let row = self.borrowings.remove(j);
        proof {
            assert(self@.borrowings =~= s.borrowings.remove(j as int));
        }
        if let Some(b) = row.book_id {
            if let Some(bi) = self.find_book(b) {
                self.books[bi].status = Status::Available;
                proof {
                    assert(self@.books =~= after_delete_borrowing(s, id).books);
                }
            }
        }
        Ok(())
    }
}

} // verus!

verus! {

impl Library {
    /// The books, in the order they were added.
    pub fn books(&self) -> (r: &Vec<Book>)
        ensures
            book_views(r@) == self@.books,
    {
        &self.books
    }

    /// The members, in the order they were added.
    pub fn members(&self) -> (r: &Vec<Member>)
        ensures
            member_views(r@) == self@.members,
    {
        &self.members
    }

    /// The loan rows, in the order they were made.
    pub fn borrowings(&self) -> (r: &Vec<Borrowing>)
        ensures
            borrowing_views(r@) == self@.borrowings,
    {
        &self.borrowings
    }

    /// Adds an available book and returns its id.
    pub fn create_book(&mut self, data: &NewBook) -> (r: Result<i32, LibraryError>)
        requires
            well_formed(old(self)@),
        ensures
            well_formed(final(self)@),
            consistent(old(self)@) ==> consistent(final(self)@),
            old(self)@.next_book_id == i32::MAX ==> r == Err::<i32, LibraryError>(
                LibraryError::IdsExhausted,
            ) && final(self)@ == old(self)@,
            old(self)@.next_book_id < i32::MAX ==> r == Ok::<i32, LibraryError>(
                old(self)@.next_book_id,
            ) && final(self)@ == (LibraryView {
                books: old(self)@.books.push(
                    BookView {
                        id: old(self)@.next_book_id,
                        title: data.title@,
                        author: data.author@,
                        category: opt_view(data.category),
                        status: Status::Available,
                    },
                ),
                next_book_id: (old(self)@.next_book_id + 1) as i32,
                ..old(self)@
            }),
    {
        if self.next_book_id == i32::MAX {
            return Err(LibraryError::IdsExhausted);
        }
        let ghost s = self@;
        let id = self.next_book_id;
        self.books.push(Book::from_new(id, data));
        self.next_book_id = id + 1;
        proof {
            assert(self@.books =~= s.books.push(self.books@[self.books@.len() - 1]@));
            if consistent(s) {
                let t = self@;
                assert forall|i: int|
                    0 <= i < t.books.len() implies (#[trigger] t.books[i].status
                    == Status::Borrowed <==> has_open_loan(t, t.books[i].id)) by {
                    assert(t.borrowings == s.borrowings);
                    if i < s.books.len() {
                        assert(t.books[i] == s.books[i]);
                    } else {
                        if has_open_loan(t, id) {
                            let j = choose|j: int|
                                0 <= j < t.borrowings.len() && is_open_for(
                                    #[trigger] t.borrowings[j],
                                    id,
                                );
                            assert(s.borrowings[j].book_id == Some(id));
                        }
                    }
                }
            }
        }
        Ok(id)
    }

    /// The book with id `id`.
    pub fn get_book(&self, id: i32) -> (r: Result<Book, LibraryError>)
        requires
            well_formed(self@),
        ensures
            match r {
                Ok(b) => has_book(self@, id) && b@ == self@.books[book_index(self@, id)],
                Err(e) => !has_book(self@, id) && e == LibraryError::BookNotFound,
            },
    {
        match self.find_book(id) {
            Some(i) => Ok(self.books[i].copy()),
            None => Err(LibraryError::BookNotFound),
        }
    }

    /// Replaces the fields of book `id` that `data` gives; the others keep
    /// their stored values. A status of `All` is refused.
    pub fn update_book(&mut self, id: i32, data: &UpdateBook) -> (r: Result<(), LibraryError>)
        requires
            well_formed(old(self)@),
        ensures
            well_formed(final(self)@),
            !has_book(old(self)@, id) ==> r == Err::<(), LibraryError>(LibraryError::BookNotFound),
            has_book(old(self)@, id) && data.status == Some(Status::All) ==> r == Err::<
                (),
                LibraryError,
            >(LibraryError::InvalidStatus),
            r is Err ==> final(self)@ == old(self)@,
            has_book(old(self)@, id) && data.status != Some(Status::All) ==> r is Ok && final(self)@
                == (LibraryView {
                books: old(self)@.books.update(
                    book_index(old(self)@, id),
                    merge_book(old(self)@.books[book_index(old(self)@, id)], *data),
                ),
                ..old(self)@
            }),
    {
        let i = match self.find_book(id) {
            Some(i) => i,
            None => return Err(LibraryError::BookNotFound),
        };
        if data.status == Some(Status::All) {
            return Err(LibraryError::InvalidStatus);
        }
        let ghost s = self@;
        let b = self.books[i].merged(data);
        self.books[i] = b;
        proof {
            assert(self@.books =~= s.books.update(i as int, merge_book(s.books[i as int], *data)));
        }
        Ok(())
    }

    /// Removes book `id`; a book with an open loan stays.
    pub fn delete_book(&mut self, id: i32) -> (r: Result<(), LibraryError>)
        requires
            well_formed(old(self)@),
        ensures
            well_formed(final(self)@),
            consistent(old(self)@) ==> consistent(final(self)@),
            !has_book(old(self)@, id) ==> r == Err::<(), LibraryError>(LibraryError::BookNotFound),
            has_book(old(self)@, id) && has_open_loan(old(self)@, id) ==> r == Err::<
                (),
                LibraryError,
            >(LibraryError::BookOnLoan),
            r is Err ==> final(self)@ == old(self)@,
            has_book(old(self)@, id) && !has_open_loan(old(self)@, id) ==> r is Ok && final(self)@
                == (LibraryView {
                books: old(self)@.books.remove(book_index(old(self)@, id)),
                ..old(self)@
            }),
    {
        let i = match self.find_book(id) {
            Some(i) => i,
            None => return Err(LibraryError::BookNotFound),
        };
        let j = self.find_open(id);
        proof {
            lemma_first_open(self@.borrowings, id, 0);
            if has_open_loan(self@, id) && j == self@.borrowings.len() {
                let w = choose|w: int|
                    0 <= w < self@.borrowings.len() && is_open_for(#[trigger] self@.borrowings[w], id);
                assert(!is_open_for(self@.borrowings[w], id));
            }
        }
        if j < self.borrowings.len() {
            return Err(LibraryError::BookOnLoan);
        }
        let ghost s = self@;
        self.books.remove(i);
        proof {
            assert(self@.books =~= s.books.remove(i as int));
            let t = self@;
            assert forall|k: int| 0 <= k < t.books.len() implies #[trigger] t.books[k] == s.books[if k < i { k } else { k + 1 }] by {}
        }
        Ok(())
    }
}

} // verus!

verus! {

impl Library {
    /// Registers a member and returns the new id.
    pub fn create_member(&mut self, data: &NewMember) -> (r: Result<i32, LibraryError>)
        requires
            well_formed(old(self)@),
        ensures
            well_formed(final(self)@),
            consistent(old(self)@) ==> consistent(final(self)@),
            old(self)@.next_member_id == i32::MAX ==> r == Err::<i32, LibraryError>(
                LibraryError::IdsExhausted,
            ) && final(self)@ == old(self)@,
            old(self)@.next_member_id < i32::MAX ==> r == Ok::<i32, LibraryError>(
                old(self)@.next_member_id,
            ) && final(self)@ == (LibraryView {
                members: old(self)@.members.push(
                    MemberView {
                        id: old(self)@.next_member_id,
                        first_name: data.first_name@,
                        last_name: data.last_name@,
                        email: data.email@,
                        phone: opt_view(data.phone),
                    },
                ),
                next_member_id: (old(self)@.next_member_id + 1) as i32,
                ..old(self)@
            }),
    {
        if self.next_member_id == i32::MAX {
            return Err(LibraryError::IdsExhausted);
        }
        let ghost s = self@;
        let id = self.next_member_id;
        self.members.push(Member::from_new(id, data));
        self.next_member_id = id + 1;
        proof {
            assert(self@.members =~= s.members.push(self.members@[self.members@.len() - 1]@));
        }
        Ok(id)
    }

    /// The member with id `id`.
    pub fn get_member(&self, id: i32) -> (r: Result<Member, LibraryError>)
        requires
            well_formed(self@),
        ensures
            match r {
                Ok(m) => has_member(self@, id) && m@ == self@.members[member_index(self@, id)],
                Err(e) => !has_member(self@, id) && e == LibraryError::MemberNotFound,
            },
    {
        match self.find_member(id) {
            Some(i) => Ok(self.members[i].copy()),
            None => Err(LibraryError::MemberNotFound),
        }
    }

    /// Replaces the fields of member `id` that `data` gives; the others keep
    /// their stored values.
    pub fn update_member(&mut self, id: i32, data: &UpdateMember) -> (r: Result<(), LibraryError>)
        requires
            well_formed(old(self)@),
        ensures
            well_formed(final(self)@),
            consistent(old(self)@) ==> consistent(final(self)@),
            !has_member(old(self)@, id) ==> r == Err::<(), LibraryError>(LibraryError::MemberNotFound)
                && final(self)@ == old(self)@,
            has_member(old(self)@, id) ==> r is Ok && final(self)@ == (LibraryView {
                members: old(self)@.members.update(
                    member_index(old(self)@, id),
                    merge_member(old(self)@.members[member_index(old(self)@, id)], *data),
                ),
                ..old(self)@
            }),
    {
        let i = match self.find_member(id) {
            Some(i) => i,
            None => return Err(LibraryError::MemberNotFound),
        };
        let ghost s = self@;
        let m = self.members[i].merged(data);
        self.members[i] = m;
        proof {
            assert(self@.members =~= s.members.update(i as int, merge_member(s.members[i as int], *data)));
        }
        Ok(())
    }

    /// Removes member `id`; a member who holds an open loan stays.
    pub fn delete_member(&mut self, id: i32) -> (r: Result<(), LibraryError>)
        requires
            well_formed(old(self)@),
        ensures
            well_formed(final(self)@),
            consistent(old(self)@) ==> consistent(final(self)@),
            !has_member(old(self)@, id) ==> r == Err::<(), LibraryError>(LibraryError::MemberNotFound),
            has_member(old(self)@, id) && member_has_open_loan(old(self)@, id) ==> r == Err::<
                (),
                LibraryError,
            >(LibraryError::MemberOnLoan),
            r is Err ==> final(self)@ == old(self)@,
            has_member(old(self)@, id) && !member_has_open_loan(old(self)@, id) ==> r is Ok
                && final(self)@ == (LibraryView {
                members: old(self)@.members.remove(member_index(old(self)@, id)),
                ..old(self)@
            }),
    {
        let i = match self.find_member(id) {
            Some(i) => i,
            None => return Err(LibraryError::MemberNotFound),
        };
        let mut k: usize = 0;
        while k < self.borrowings.len()
            invariant
                well_formed(self@),
                has_member(self@, id),
                k <= self@.borrowings.len(),
                forall|q: int|
                    0 <= q < k ==> !(#[trigger] self@.borrowings[q].member_id == Some(id)
                        && self@.borrowings[q].return_date is None),
            decreases self@.borrowings.len() - k,
        {
            if self.borrowings[k].member_id == Some(id) && self.borrowings[k].return_date.is_none() {
                assert(self@.borrowings[k as int].member_id == Some(id));
                return Err(LibraryError::MemberOnLoan);
            }
            k = k + 1;
        }
        let ghost s = self@;
        self.members.remove(i);
        proof {
            assert(self@.members =~= s.members.remove(i as int));
            let t = self@;
            assert forall|q: int| 0 <= q < t.members.len() implies #[trigger] t.members[q] == s.members[if q < i { q } else { q + 1 }] by {}
            assert(t.books == s.books && t.borrowings == s.borrowings);
        }
        Ok(())
    }
}

} // verus!

verus! {

pub open spec fn book_pred(p: &SearchParams) -> spec_fn(BookView) -> bool {
    |b: BookView| book_matches(b, p)
}

/// The books that pass the filters of `p`, in stored order.
pub open spec fn matching_books(books: Seq<BookView>, p: &SearchParams) -> Seq<BookView> {
    books.filter(book_pred(p))
}

pub open spec fn book_keys(f: Seq<BookView>, col: Seq<char>) -> Seq<KeyView> {
    Seq::new(f.len(), |k: int| book_key(f[k], col))
}

/// `r` is what a book listing with parameters `p` shows: the matching books
/// sorted by the effective column in the effective direction, books whose
/// values tie in stored order, and of those the page that `p` asks for
/// (`lemma_sorted_order` states what the insertion order guarantees).
pub open spec fn book_listing(books: Seq<BookView>, p: &SearchParams, r: Seq<BookView>) -> bool {
    let f = matching_books(books, p);
    let ord = sorted_order(book_keys(f, book_sort_column(p.order_by)), effective_order(p.order), f.len());
    r == window(arrange(f, ord), offset_spec(p.page, p.limit), limit_spec(p.limit) as int)
}

/// The bounds of the page window of a sorted listing of `n` rows.
fn window_bounds(n: usize, offset: u64, limit: u32) -> (r: (usize, usize))
    ensures
        r.0 <= r.1 <= n,
        offset >= n ==> r.0 == n,
        offset < n ==> r.0 == offset,
        offset < n && offset + limit >= n ==> r.1 == n,
        offset + limit < n ==> r.1 == offset + limit,
{
    if offset >= n as u64 {
        (n, n)
    } else if (limit as u64) >= (n as u64) - offset {
        (offset as usize, n)
    } else {
        (offset as usize, offset as usize + limit as usize)
    }
}

impl Library {
    /// The book listing that `p` asks for.
    pub fn search_books(&self, p: &SearchParams) -> (r: Vec<Book>)
        ensures
            book_listing(self@.books, p, book_views(r@)),
    {
        let ghost all = self@.books;
        let mut f: Vec<Book> = Vec::new();
        let mut i: usize = 0;
        while i < self.books.len()
            invariant
                all == self@.books,
                i <= all.len(),
                book_views(f@) == matching_books(all.subrange(0, i as int), p),
            decreases all.len() - i,
        {
            proof {
                assert(all.subrange(0, i + 1) =~= all.subrange(0, i as int).push(all[i as int]));
                all.subrange(0, i as int).lemma_filter_push(all[i as int], book_pred(p));
            }
            if book_passes(&self.books[i], p) {
                let b = self.books[i].copy();
                f.push(b);
                proof {
                    assert(book_views(f@) =~= book_views(f@.drop_last()).push(b@));
                }
            }
            i = i + 1;
        }
        assert(all.subrange(0, all.len() as int) =~= all);
        let ghost fv = book_views(f@);
        let col = p.get_order_by();
        let mut keys: Vec<SortKey> = Vec::new();
        let mut j: usize = 0;
        while j < f.len()
            invariant
                fv == book_views(f@),
                j <= f@.len(),
                keys@.len() == j,
                forall|q: int| 0 <= q < j ==> (#[trigger] keys@[q])@ == book_key(fv[q], col@),
            decreases f@.len() - j,
        {
            keys.push(book_sort_key(&f[j], col.as_str()));
            j = j + 1;
        }
        assert(key_views(keys@) =~= book_keys(fv, col@));
        let ord = sorted_positions(&keys, p.get_order());
        let offset = p.get_offset();
        let limit = p.get_limit();
        let (start, end) = window_bounds(ord.len(), offset, limit);
        let ghost full = arrange(fv, ord@);
        let mut out: Vec<Book> = Vec::new();
        let mut k: usize = start;
        while k < end
            invariant
                fv == book_views(f@),
                is_ordering(ord@, fv.len()),
                full == arrange(fv, ord@),
                start <= k <= end <= ord@.len(),
                book_views(out@) == full.subrange(start as int, k as int),
            decreases end - k,
        {
            let pos = ord[k];
            assert(pos < fv.len());
            let b = f[pos].copy();
            let ghost before = out@;
            out.push(b);
            proof {
                assert(b@ == full[k as int]);
                assert(book_views(out@) =~= book_views(before).push(b@));
                assert(full.subrange(start as int, k + 1) =~= full.subrange(start as int, k as int).push(full[k as int]));
            }
            k = k + 1;
        }
        proof {
            assert(window(full, offset_spec(p.page, p.limit), limit_spec(p.limit) as int) =~= full.subrange(start as int, end as int));
        }
        out
    }
}

} // verus!

verus! {

pub open spec fn member_pred(p: &MemberSearchParams) -> spec_fn(MemberView) -> bool {
    |m: MemberView| member_matches(m, p)
}

/// The members that pass the filters of `p`, in stored order.
pub open spec fn matching_members(members: Seq<MemberView>, p: &MemberSearchParams) -> Seq<MemberView> {
    members.filter(member_pred(p))
}

pub open spec fn member_keys(f: Seq<MemberView>, col: Seq<char>) -> Seq<KeyView> {
    Seq::new(f.len(), |k: int| member_key(f[k], col))
}

/// `r` is what a member listing with parameters `p` shows: the matching
/// members sorted by the effective column in the effective direction,
/// members whose values tie in stored order, and of those the page that `p`
/// asks for.
pub open spec fn member_listing(members: Seq<MemberView>, p: &MemberSearchParams, r: Seq<MemberView>) -> bool {
    let f = matching_members(members, p);
    let ord = sorted_order(
        member_keys(f, member_sort_column(p.order_by)),
        effective_order(p.order),
        f.len(),
    );
    r == window(arrange(f, ord), offset_spec(p.page, p.limit), limit_spec(p.limit) as int)
}

impl Library {
    /// The member listing that `p` asks for.
    pub fn search_members(&self, p: &MemberSearchParams) -> (r: Vec<Member>)
        ensures
            member_listing(self@.members, p, member_views(r@)),
    {
        let ghost all = self@.members;
        let mut f: Vec<Member> = Vec::new();
        let mut i: usize = 0;
        while i < self.members.len()
            invariant
                all == self@.members,
                i <= all.len(),
                member_views(f@) == matching_members(all.subrange(0, i as int), p),
            decreases all.len() - i,
        {
            proof {
                assert(all.subrange(0, i + 1) =~= all.subrange(0, i as int).push(all[i as int]));
                all.subrange(0, i as int).lemma_filter_push(all[i as int], member_pred(p));
            }
            if member_passes(&self.members[i], p) {
                let b = self.members[i].copy();
                f.push(b);
                proof {
                    assert(member_views(f@) =~= member_views(f@.drop_last()).push(b@));
                }
            }
            i = i + 1;
        }
        assert(all.subrange(0, all.len() as int) =~= all);
        let ghost fv = member_views(f@);
        let col = p.get_order_by();
        let mut keys: Vec<SortKey> = Vec::new();
        let mut j: usize = 0;
        while j < f.len()
            invariant
                fv == member_views(f@),
                j <= f@.len(),
                keys@.len() == j,
                forall|q: int| 0 <= q < j ==> (#[trigger] keys@[q])@ == member_key(fv[q], col@),
            decreases f@.len() - j,
        {
            keys.push(member_sort_key(&f[j], col.as_str()));
            j = j + 1;
        }
        assert(key_views(keys@) =~= member_keys(fv, col@));
        let ord = sorted_positions(&keys, p.get_order());
        let offset = p.get_offset();
        let limit = p.get_limit();
        let (start, end) = window_bounds(ord.len(), offset, limit);
        let ghost full = arrange(fv, ord@);
        let mut out: Vec<Member> = Vec::new();
        let mut k: usize = start;
        while k < end
            invariant
                fv == member_views(f@),
                is_ordering(ord@, fv.len()),
                full == arrange(fv, ord@),
                start <= k <= end <= ord@.len(),
                member_views(out@) == full.subrange(start as int, k as int),
            decreases end - k,
        {
            let pos = ord[k];
            assert(pos < fv.len());
            let b = f[pos].copy();
            let ghost before = out@;
            out.push(b);
            proof {
                assert(b@ == full[k as int]);
                assert(member_views(out@) =~= member_views(before).push(b@));
                assert(full.subrange(start as int, k + 1) =~= full.subrange(start as int, k as int).push(full[k as int]));
            }
            k = k + 1;
        }
        proof {
            assert(window(full, offset_spec(p.page, p.limit), limit_spec(p.limit) as int) =~= full.subrange(start as int, end as int));
        }
        out
    }
}

} // verus!

verus! {

/// The name under which a member appears as a borrower.
pub open spec fn borrower_name(m: MemberView) -> Seq<char> {
    m.first_name + seq![' '] + m.last_name
}

/// Loan row `r` joined with its book and its member, when both are in the
/// catalog.
pub open spec fn joined_row(s: LibraryView, r: BorrowingView) -> Option<BorrowedBookView> {
    match (r.book_id, r.member_id) {
        (Some(b), Some(m)) if has_book(s, b) && has_member(s, m) => {
            let book = s.books[book_index(s, b)];
            let member = s.members[member_index(s, m)];
            Some(
                BorrowedBookView {
                    id: b,
                    title: book.title,
                    author: book.author,
                    borrower: borrower_name(member),
                    borrower_id: m,
                    borrow_date: r.borrow_date,
                    return_date: r.return_date,
                    status: if r.return_date is None {
                        Status::Borrowed
                    } else {
                        Status::Available
                    },
                },
            )
        },
        _ => None,
    }
}

/// The joined rows of `rows`, in order.
pub open spec fn loan_rows(s: LibraryView, rows: Seq<BorrowingView>) -> Seq<BorrowedBookView>
    decreases rows.len(),
{
    if rows.len() == 0 {
        Seq::empty()
    } else {
        let prev = loan_rows(s, rows.drop_last());
        match joined_row(s, rows.last()) {
            Some(v) => prev.push(v),
            None => prev,
        }
    }
}

/// A joined row is of member `member` (any member when absent) and passes
/// status filter `status`.
pub open spec fn loan_pred(member: Option<i32>, status: Status) -> spec_fn(BorrowedBookView) -> bool {
    |v: BorrowedBookView|
        (member is None || Some(v.borrower_id) == member) && status_accepts(status, v.status)
}

pub open spec fn date_keys(f: Seq<BorrowedBookView>) -> Seq<KeyView> {
    Seq::new(f.len(), |k: int| KeyView::Num(f[k].borrow_date as int))
}

/// `r` is what a listing of borrowed books shows: the joined rows of member
/// `member` (of every member when absent) that pass the status filter of
/// `p`, sorted by loan date in the direction of `p`, loans of the same day
/// in stored order, and of those the page that `p` asks for.
pub open spec fn loan_listing(
    s: LibraryView,
    member: Option<i32>,
    p: &BorrowParams,
    r: Seq<BorrowedBookView>,
) -> bool {
    let f = loan_rows(s, s.borrowings).filter(loan_pred(member, effective_status(p.status)));
    let ord = sorted_order(date_keys(f), effective_order(p.order), f.len());
    r == window(arrange(f, ord), offset_spec(p.page, p.limit), limit_spec(p.limit) as int)
}

pub open spec fn loan_views(v: Seq<BorrowedBook>) -> Seq<BorrowedBookView> {
    v.map_values(|b: BorrowedBook| b@)
}

impl Library {
    fn join_row(&self, i: usize) -> (r: Option<BorrowedBook>)
        requires
            well_formed(self@),
            i < self@.borrowings.len(),
        ensures
            match r {
                Some(v) => joined_row(self@, self@.borrowings[i as int]) == Some(v@),
                None => joined_row(self@, self@.borrowings[i as int]) is None,
            },
    {
        let row = &self.borrowings[i];
        match (row.book_id, row.member_id) {
            (Some(b), Some(m)) => {
                let bi = match self.find_book(b) {
                    Some(bi) => bi,
                    None => return None,
                };
                let mi = match self.find_member(m) {
                    Some(mi) => mi,
                    None => return None,
                };
                let book = &self.books[bi];
                let member = &self.members[mi];
                let mut name = member.first_name.clone();
                name.append(" ");
                name.append(member.last_name.as_str());
                proof {
                    reveal_strlit(" ");
                    assert(name@ =~= borrower_name(self@.members[mi as int]));
                }
                Some(
                    BorrowedBook {
                        id: b,
                        title: book.title.clone(),
                        author: book.author.clone(),
                        borrower: name,
                        borrower_id: m,
                        borrow_date: row.borrow_date,
                        return_date: row.return_date,
                        status: if row.return_date.is_none() {
                            Status::Borrowed
                        } else {
                            Status::Available
                        },
                    },
                )
            },
            _ => None,
        }
    }

    fn loans(&self, member: Option<i32>, p: &BorrowParams) -> (r: Vec<BorrowedBook>)
        requires
            well_formed(self@),
        ensures
            loan_listing(self@, member, p, loan_views(r@)),
    {
        let ghost rows = self@.borrowings;
        let ghost pred = loan_pred(member, effective_status(p.status));
        let st = p.get_status();
        let mut f: Vec<BorrowedBook> = Vec::new();
        let mut i: usize = 0;
        while i < self.borrowings.len()
            invariant
                well_formed(self@),
                rows == self@.borrowings,
                pred == loan_pred(member, effective_status(p.status)),
                st == effective_status(p.status),
                i <= rows.len(),
                loan_views(f@) == loan_rows(self@, rows.subrange(0, i as int)).filter(pred),
            decreases rows.len() - i,
        {
            let ghost sub = rows.subrange(0, i + 1);
            proof {
                assert(sub.drop_last() =~= rows.subrange(0, i as int));
                assert(sub.last() == rows[i as int]);
            }
            match self.join_row(i) {
                Some(v) => {
                    proof {
                        loan_rows(self@, rows.subrange(0, i as int)).lemma_filter_push(v@, pred);
                    }
                    let keep = (match member {
                        None => true,
                        Some(m) => v.borrower_id == m,
                    }) && (st == Status::All || st == v.status);
                    if keep {
                        let ghost before = f@;
                        f.push(v);
                        proof {
                            assert(loan_views(f@) =~= loan_views(before).push(f@.last()@));
                        }
                    }
                },
                None => {},
            }
            i = i + 1;
        }
        assert(rows.subrange(0, rows.len() as int) =~= rows);
        let ghost fv = loan_views(f@);
        let mut keys: Vec<SortKey> = Vec::new();
        let mut j: usize = 0;
        while j < f.len()
            invariant
                fv == loan_views(f@),
                j <= f@.len(),
                keys@.len() == j,
                forall|q: int| 0 <= q < j ==> (#[trigger] keys@[q])@ == KeyView::Num(fv[q].borrow_date as int),
            decreases f@.len() - j,
        {
            keys.push(SortKey::Num(f[j].borrow_date as i64));
            j = j + 1;
        }
        assert(key_views(keys@) =~= date_keys(fv));
        let ord = sorted_positions(&keys, p.get_order());
        let offset = p.get_offset();
        let limit = p.get_limit();
        let (start, end) = window_bounds(ord.len(), offset, limit);
        let ghost full = arrange(fv, ord@);
        let mut out: Vec<BorrowedBook> = Vec::new();
        let mut k: usize = start;
        while k < end
            invariant
                fv == loan_views(f@),
                is_ordering(ord@, fv.len()),
                full == arrange(fv, ord@),
                start <= k <= end <= ord@.len(),
                loan_views(out@) == full.subrange(start as int, k as int),
            decreases end - k,
        {
            let pos = ord[k];
            assert(pos < fv.len());
            let b = f[pos].copy();
            let ghost before = out@;
            out.push(b);
            proof {
                assert(b@ == full[k as int]);
                assert(loan_views(out@) =~= loan_views(before).push(b@));
                assert(full.subrange(start as int, k + 1) =~= full.subrange(start as int, k as int).push(full[k as int]));
            }
            k = k + 1;
        }
        proof {
            assert(window(full, offset_spec(p.page, p.limit), limit_spec(p.limit) as int) =~= full.subrange(start as int, end as int));
        }
        out
    }

    /// The books that member `member_id` has borrowed, as `p` filters, sorts
    /// and pages them.
    pub fn borrows_by_member(&self, member_id: i32, p: &BorrowParams) -> (r: Vec<BorrowedBook>)
        requires
            well_formed(self@),
        ensures
            loan_listing(self@, Some(member_id), p, loan_views(r@)),
    {
        self.loans(Some(member_id), p)
    }

    /// The borrowed books of every member, as `p` filters, sorts and pages
    /// them.
    pub fn all_borrowings(&self, p: &BorrowParams) -> (r: Vec<BorrowedBook>)
        requires
            well_formed(self@),
        ensures
            loan_listing(self@, None, p, loan_views(r@)),
    {
        self.loans(None, p)
    }
}

} // verus!

verus! {

impl Library {
    /// Lends a book as `borrow` does, dated today by the clock.
    pub fn borrow_today(&mut self, book_id: i32, member_id: i32) -> (r: Result<i32, LibraryError>)
        requires
            well_formed(old(self)@),
        ensures
            well_formed(final(self)@),
            consistent(old(self)@) ==> consistent(final(self)@),
            match borrow_outcome(old(self)@, book_id, member_id) {
                Ok(_) => r == Ok::<i32, LibraryError>(old(self)@.next_borrowing_id) && exists|day: i32|
                    final(self)@ == #[trigger] after_borrow(
                        old(self)@,
                        book_id,
                        member_id,
                        day,
                    ),
                Err(e) => r == Err::<i32, LibraryError>(e) && final(self)@ == old(self)@,
            },
    {
        let day = today();
        self.borrow(book_id, member_id, day)
    }

    /// Takes a book back as `return_book` does, dated today by the clock.
    pub fn return_today(&mut self, book_id: i32) -> (r: Result<(), LibraryError>)
        requires
            well_formed(old(self)@),
        ensures
            well_formed(final(self)@),
            consistent(old(self)@) ==> consistent(final(self)@),
            r == return_outcome(old(self)@, book_id),
            r is Ok ==> exists|day: i32| final(self)@ == #[trigger] after_return(old(self)@, book_id, day),
            r is Err ==> final(self)@ == old(self)@,
    {
        let day = today();
        self.return_book(book_id, day)
    }
}

} // verus!
