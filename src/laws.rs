use vstd::prelude::*;

use crate::books::{book_column_allowed, book_sort_column, BookView, SearchParams};
use crate::borrowings::{BorrowParams, BorrowedBookView};
use crate::members::{member_column_allowed, member_sort_column, MemberSearchParams, MemberView};
use crate::params::{limit_spec, offset_spec, Status, DEFAULT_LIMIT};
use crate::store::{
    after_borrow, after_return, book_index, book_listing, book_pred, borrow_outcome, consistent,
    first_open, has_member, has_open_loan, is_open_for, lemma_borrow_keeps_consistent,
    lemma_first_open, lemma_return_keeps_consistent, loan_listing, matching_books,
    matching_members, member_index, member_listing, member_pred, return_outcome, well_formed,
    LibraryError, LibraryView,
};

verus! {

/// One step of the lending cycle.
pub enum LendingOp {
    Borrow { book: i32, member: i32, day: i32 },
    Return { book: i32, day: i32 },
}

/// The store after a lending request: changed when the request succeeds,
/// as it was when it fails.
pub open spec fn borrow_step(s: LibraryView, book: i32, member: i32, day: i32) -> LibraryView {
    if borrow_outcome(s, book, member) is Ok {
        after_borrow(s, book, member, day)
    } else {
        s
    }
}

/// The store after a return: changed when the return succeeds, as it was
/// when it fails.
pub open spec fn return_step(s: LibraryView, book: i32, day: i32) -> LibraryView {
    if return_outcome(s, book) is Ok {
        after_return(s, book, day)
    } else {
        s
    }
}

pub open spec fn apply_op(s: LibraryView, op: LendingOp) -> LibraryView {
    match op {
        LendingOp::Borrow { book, member, day } => borrow_step(s, book, member, day),
        LendingOp::Return { book, day } => return_step(s, book, day),
    }
}

/// The store after the steps of `ops`, in order.
pub open spec fn run_ops(s: LibraryView, ops: Seq<LendingOp>) -> LibraryView
    decreases ops.len(),
{
    if ops.len() == 0 {
        s
    } else {
        apply_op(run_ops(s, ops.drop_last()), ops.last())
    }
}

pub proof fn lemma_borrow_keeps_well_formed(s: LibraryView, book: i32, member: i32, day: i32)
    requires
        well_formed(s),
    ensures
        well_formed(borrow_step(s, book, member, day)),
{
    if borrow_outcome(s, book, member) is Ok {
        let t = after_borrow(s, book, member, day);
        let bi = book_index(s, book);
        let mi = member_index(s, member);
        assert(s.books[bi].id == book);
        assert(s.members[mi].id == member);
        assert forall|i: int, j: int|
            0 <= i < t.books.len() && 0 <= j < t.books.len() && #[trigger] t.books[i].id
                == #[trigger] t.books[j].id implies i == j by {
            assert(t.books[i].id == s.books[i].id && t.books[j].id == s.books[j].id);
        }
        assert forall|i: int| 0 <= i < t.books.len() implies #[trigger] t.books[i].status != Status::All by {
            assert(i != bi ==> t.books[i] == s.books[i]);
        }
        assert forall|i: int| 0 <= i < t.books.len() implies #[trigger] t.books[i].id < t.next_book_id by {
            assert(t.books[i].id == s.books[i].id);
        }
    }
}

pub proof fn lemma_return_keeps_well_formed(s: LibraryView, book: i32, day: i32)
    requires
        well_formed(s),
    ensures
        well_formed(return_step(s, book, day)),
{
    if return_outcome(s, book) is Ok {
        let t = after_return(s, book, day);
        let bi = book_index(s, book);
        let j0 = first_open(s.borrowings, book, 0);
        lemma_first_open(s.borrowings, book, 0);
        let w = choose|j: int| 0 <= j < s.borrowings.len() && is_open_for(#[trigger] s.borrowings[j], book);
        if j0 >= s.borrowings.len() {
            assert(!is_open_for(s.borrowings[w], book));
        }
        assert(s.books[bi].id == book);
        assert forall|i: int, j: int|
            0 <= i < t.books.len() && 0 <= j < t.books.len() && #[trigger] t.books[i].id
                == #[trigger] t.books[j].id implies i == j by {
            assert(t.books[i].id == s.books[i].id && t.books[j].id == s.books[j].id);
        }
        assert forall|i: int, j: int|
            0 <= i < t.borrowings.len() && 0 <= j < t.borrowings.len() && #[trigger] t.borrowings[i].id
                == #[trigger] t.borrowings[j].id implies i == j by {
            assert(t.borrowings[i].id == s.borrowings[i].id && t.borrowings[j].id == s.borrowings[j].id);
        }
        assert forall|i: int| 0 <= i < t.books.len() implies #[trigger] t.books[i].status != Status::All by {
            assert(i != bi ==> t.books[i] == s.books[i]);
        }
        assert forall|i: int| 0 <= i < t.books.len() implies #[trigger] t.books[i].id < t.next_book_id by {
            assert(t.books[i].id == s.books[i].id);
        }
        assert forall|j: int| 0 <= j < t.borrowings.len() implies #[trigger] t.borrowings[j].id < t.next_borrowing_id by {
            assert(t.borrowings[j].id == s.borrowings[j].id);
        }
        assert forall|j: int|
            0 <= j < t.borrowings.len() && #[trigger] t.borrowings[j].book_id is Some implies t.borrowings[j].book_id->0
            < t.next_book_id by {
            assert(t.borrowings[j].book_id == s.borrowings[j].book_id);
        }
        assert forall|j: int|
            0 <= j < t.borrowings.len() && #[trigger] t.borrowings[j].member_id is Some implies t.borrowings[j].member_id->0
            < t.next_member_id by {
            assert(t.borrowings[j].member_id == s.borrowings[j].member_id);
        }
    }
}

/// Whatever sequence of borrows and returns runs on a consistent store, a
/// book is marked borrowed afterwards exactly when an open loan of it
/// exists, and no book has two open loans.
pub proof fn lemma_lending_keeps_consistent(s: LibraryView, ops: Seq<LendingOp>)
    requires
        well_formed(s),
        consistent(s),
    ensures
        well_formed(run_ops(s, ops)),
        consistent(run_ops(s, ops)),
    decreases ops.len(),
{
    if ops.len() > 0 {
        lemma_lending_keeps_consistent(s, ops.drop_last());
        let m = run_ops(s, ops.drop_last());
        match ops.last() {
            LendingOp::Borrow { book, member, day } => {
                lemma_borrow_keeps_well_formed(m, book, member, day);
                if borrow_outcome(m, book, member) is Ok {
                    lemma_borrow_keeps_consistent(m, book, member, day);
                }
            },
            LendingOp::Return { book, day } => {
                lemma_return_keeps_well_formed(m, book, day);
                if return_outcome(m, book) is Ok {
                    lemma_return_keeps_consistent(m, book, day);
                }
            },
        }
    }
}

/// Of two requests to lend the same book, by existing members, the second
/// is refused as unavailable once the first has succeeded.
pub proof fn lemma_double_borrow_conflicts(
    s: LibraryView,
    book: i32,
    first: i32,
    second: i32,
    day1: i32,
    day2: i32,
)
    requires
        well_formed(s),
        borrow_outcome(s, book, first) is Ok,
        has_member(s, second),
    ensures
        borrow_outcome(after_borrow(s, book, first, day1), book, second) == Err::<(), LibraryError>(
            LibraryError::BookUnavailable,
        ),
{
    let t = after_borrow(s, book, first, day1);
    let bi = book_index(s, book);
    assert(s.books[bi].id == book);
    let mi = choose|i: int| 0 <= i < s.members.len() && #[trigger] s.members[i].id == second;
    assert(t.members[mi].id == second);
    assert(t.books[bi].id == book);
    let ti = book_index(t, book);
    assert(t.books[ti].id == s.books[ti].id);
}

/// A return of a book that has no open loan is refused, and the store,
/// book status included, stays as it was.
pub proof fn lemma_return_without_loan(s: LibraryView, book: i32, day: i32)
    requires
        !has_open_loan(s, book),
    ensures
        return_outcome(s, book) is Err,
        return_step(s, book, day) == s,
{
}

/// A book listing asked to sort by a column outside the allowed ones shows
/// the same books, in the same order, as the same listing with no sort
/// column: both sort by id.
pub proof fn lemma_unknown_book_column(
    books: Seq<BookView>,
    given: SearchParams,
    plain: SearchParams,
    r1: Seq<BookView>,
    r2: Seq<BookView>,
)
    requires
        given.order_by is Some,
        !book_column_allowed(given.order_by->0@),
        plain.order_by is None,
        given.title == plain.title,
        given.author == plain.author,
        given.category == plain.category,
        given.status == plain.status,
        given.order == plain.order,
        given.limit == plain.limit,
        given.page == plain.page,
        book_listing(books, &given, r1),
        book_listing(books, &plain, r2),
    ensures
        r1 == r2,
        book_sort_column(given.order_by) == "id"@,
        book_sort_column(plain.order_by) == "id"@,
{
    assert(book_pred(&given) =~= book_pred(&plain));
    assert(matching_books(books, &given) == matching_books(books, &plain));
}

/// A member listing asked to sort by a column outside the allowed ones
/// shows the same members, in the same order, as the same listing with no
/// sort column: both sort by id.
pub proof fn lemma_unknown_member_column(
    members: Seq<MemberView>,
    given: MemberSearchParams,
    plain: MemberSearchParams,
    r1: Seq<MemberView>,
    r2: Seq<MemberView>,
)
    requires
        given.order_by is Some,
        !member_column_allowed(given.order_by->0@),
        plain.order_by is None,
        given.first_name == plain.first_name,
        given.last_name == plain.last_name,
        given.email == plain.email,
        given.phone == plain.phone,
        given.order == plain.order,
        given.limit == plain.limit,
        given.page == plain.page,
        member_listing(members, &given, r1),
        member_listing(members, &plain, r2),
    ensures
        r1 == r2,
        member_sort_column(given.order_by) == "id"@,
        member_sort_column(plain.order_by) == "id"@,
{
    assert(member_pred(&given) =~= member_pred(&plain));
    assert(matching_members(members, &given) == matching_members(members, &plain));
}

/// Page zero and no page both start at the first row, and no limit means
/// the default limit.
pub proof fn lemma_first_page(limit: Option<u32>)
    ensures
        offset_spec(None, limit) == 0,
        offset_spec(Some(0), limit) == 0,
        limit_spec(None) == DEFAULT_LIMIT,
{
}

/// A book listing with the status filter `All` shows the same books, in
/// the same order, as the same listing with no status filter.
pub proof fn lemma_book_status_all(
    books: Seq<BookView>,
    given: SearchParams,
    plain: SearchParams,
    r1: Seq<BookView>,
    r2: Seq<BookView>,
)
    requires
        given.status == Some(Status::All),
        plain.status is None,
        given.title == plain.title,
        given.author == plain.author,
        given.category == plain.category,
        given.order == plain.order,
        given.order_by == plain.order_by,
        given.limit == plain.limit,
        given.page == plain.page,
        book_listing(books, &given, r1),
        book_listing(books, &plain, r2),
    ensures
        r1 == r2,
{
    assert(book_pred(&given) =~= book_pred(&plain));
    assert(matching_books(books, &given) == matching_books(books, &plain));
}

/// A listing of borrowed books, of one member or of all, with the status
/// filter `All` shows the same loans, in the same order, as the same listing
/// with no status filter.
pub proof fn lemma_loan_status_all(
    s: LibraryView,
    member: Option<i32>,
    given: BorrowParams,
    plain: BorrowParams,
    r1: Seq<BorrowedBookView>,
    r2: Seq<BorrowedBookView>,
)
    requires
        given.status == Some(Status::All),
        plain.status is None,
        given.order == plain.order,
        given.limit == plain.limit,
        given.page == plain.page,
        loan_listing(s, member, &given, r1),
        loan_listing(s, member, &plain, r2),
    ensures
        r1 == r2,
{
}

} // verus!
