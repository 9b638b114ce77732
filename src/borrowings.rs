use vstd::prelude::*;

use crate::params::{effective_order, effective_status, limit_spec, offset_of, offset_spec, Order, Status};
use crate::text::text_eq;

verus! {

// Dates are counted in days, with 1 January of year 1 as day 1.

/// A loan of a book to a member; it is open while `return_date` is absent.
#[derive(Debug)]
pub struct Borrowing {
    pub id: i32,
    pub book_id: Option<i32>,
    pub member_id: Option<i32>,
    pub borrow_date: i32,
    pub return_date: Option<i32>,
}

pub struct BorrowingView {
    pub id: i32,
    pub book_id: Option<i32>,
    pub member_id: Option<i32>,
    pub borrow_date: i32,
    pub return_date: Option<i32>,
}

impl View for Borrowing {
    type V = BorrowingView;

    open spec fn view(&self) -> BorrowingView {
        BorrowingView {
            id: self.id,
            book_id: self.book_id,
            member_id: self.member_id,
            borrow_date: self.borrow_date,
            return_date: self.return_date,
        }
    }
}

impl Borrowing {
    pub fn copy(&self) -> (r: Borrowing)
        ensures
            r@ == self@,
    {
        Borrowing {
            id: self.id,
            book_id: self.book_id,
            member_id: self.member_id,
            borrow_date: self.borrow_date,
            return_date: self.return_date,
        }
    }
}

pub open spec fn borrowing_views(v: Seq<Borrowing>) -> Seq<BorrowingView> {
    v.map_values(|b: Borrowing| b@)
}

/// A loan as a client records it directly.
#[derive(Debug)]
pub struct NewBorrowing {
    pub book_id: i32,
    pub member_id: i32,
    pub borrow_date: i32,
    pub return_date: Option<i32>,
}

/// A change to the return date of a loan.
#[derive(Debug)]
pub struct UpdateBorrowing {
    pub return_date: Option<i32>,
}

/// Filters, sort and page of a loan listing.
#[derive(Debug)]
pub struct BorrowingSearchParams {
    pub book_id: Option<i32>,
    pub member_id: Option<i32>,
    pub status: Option<Status>,
    pub from_date: Option<i32>,
    pub to_date: Option<i32>,
    pub order: Option<Order>,
    pub order_by: Option<String>,
    pub limit: Option<u32>,
    pub page: Option<u32>,
}

/// The columns a loan listing may be sorted by.
pub open spec fn borrowing_column_allowed(c: Seq<char>) -> bool {
    c == "id"@ || c == "book_id"@ || c == "member_id"@ || c == "borrow_date"@ || c
        == "return_date"@
}

pub open spec fn borrowing_sort_column(order_by: Option<String>) -> Seq<char> {
    match order_by {
        Some(c) if borrowing_column_allowed(c@) => c@,
        _ => "id"@,
    }
}

impl BorrowingSearchParams {
    /// The number of rows to skip.
    pub fn get_offset(&self) -> (r: u64)
        ensures
            r == offset_spec(self.page, self.limit),
    {
        offset_of(self.page, self.limit)
    }

    /// The column to sort by, from the allowed ones only.
    pub fn get_order_by(&self) -> (r: String)
        ensures
            r@ == borrowing_sort_column(self.order_by),
    {
        proof {
            reveal_strlit("id");
        }
        match &self.order_by {
            Some(c) => {
                let s = c.as_str();
                if text_eq(s, "id") || text_eq(s, "book_id") || text_eq(s, "member_id")
                    || text_eq(s, "borrow_date") || text_eq(s, "return_date") {
                    c.clone()
                } else {
                    "id".to_owned()
                }
            },
            None => "id".to_owned(),
        }
    }

    /// The sort direction: ascending unless one is given.
    pub fn get_order(&self) -> (r: Order)
        ensures
            r == effective_order(self.order),
    {
        match self.order {
            Some(o) => o,
            None => Order::ASC,
        }
    }
}

/// The book that a lending request names.
#[derive(Debug)]
pub struct BorrowRequest {
    pub book_id: i32,
}

/// A loan joined with its book and its borrower; `status` is `Borrowed`
/// while the loan is open and `Available` once the book is back.
#[derive(Debug)]
pub struct BorrowedBook {
    pub id: i32,
    pub title: String,
    pub author: String,
    pub borrower: String,
    pub borrower_id: i32,
    pub borrow_date: i32,
    pub return_date: Option<i32>,
    pub status: Status,
}

pub struct BorrowedBookView {
    pub id: i32,
    pub title: Seq<char>,
    pub author: Seq<char>,
    pub borrower: Seq<char>,
    pub borrower_id: i32,
    pub borrow_date: i32,
    pub return_date: Option<i32>,
    pub status: Status,
}

impl View for BorrowedBook {
    type V = BorrowedBookView;

    open spec fn view(&self) -> BorrowedBookView {
        BorrowedBookView {
            id: self.id,
            title: self.title@,
            author: self.author@,
            borrower: self.borrower@,
            borrower_id: self.borrower_id,
            borrow_date: self.borrow_date,
            return_date: self.return_date,
            status: self.status,
        }
    }
}

impl BorrowedBook {
    pub fn copy(&self) -> (r: BorrowedBook)
        ensures
            r@ == self@,
    {
        BorrowedBook {
            id: self.id,
            title: self.title.clone(),
            author: self.author.clone(),
            borrower: self.borrower.clone(),
            borrower_id: self.borrower_id,
            borrow_date: self.borrow_date,
            return_date: self.return_date,
            status: self.status,
        }
    }
}

/// Status filter, sort direction and page of a listing of borrowed books.
#[derive(Debug)]
pub struct BorrowParams {
    pub current: Option<bool>,
    pub page: Option<u32>,
    pub limit: Option<u32>,
    pub order: Option<Order>,
    pub status: Option<Status>,
}

impl BorrowParams {
    /// The number of rows to skip.
    pub fn get_offset(&self) -> (r: u64)
        ensures
            r == offset_spec(self.page, self.limit),
    {
        offset_of(self.page, self.limit)
    }

    /// The number of rows to return.
    pub fn get_limit(&self) -> (r: u32)
        ensures
            r == limit_spec(self.limit),
    {
        crate::params::limit_of(self.limit)
    }

    /// The sort direction: ascending unless one is given.
    pub fn get_order(&self) -> (r: Order)
        ensures
            r == effective_order(self.order),
    {
        match self.order {
            Some(o) => o,
            None => Order::ASC,
        }
    }

    /// The status filter: `All` unless one is given.
    pub fn get_status(&self) -> (r: Status)
        ensures
            r == effective_status(self.status),
    {
        match self.status {
            Some(s) => s,
            None => Status::All,
        }
    }
}

} // verus!
