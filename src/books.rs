use vstd::prelude::*;

use crate::params::{
    effective_order, effective_status, limit_spec, offset_of, offset_spec, status_accepts,
    status_text, Order, Status,
};
use crate::sort::{KeyView, SortKey};
use crate::text::{chars_of, copy_opt, filter_accepts, filter_check, opt_view, text_eq};

verus! {

/// A book of the catalog.
#[derive(Debug)]
pub struct Book {
    pub id: i32,
    pub title: String,
    pub author: String,
    pub category: Option<String>,
    pub status: Status,
}

pub struct BookView {
    pub id: i32,
    pub title: Seq<char>,
    pub author: Seq<char>,
    pub category: Option<Seq<char>>,
    pub status: Status,
}

impl View for Book {
    type V = BookView;

    open spec fn view(&self) -> BookView {
        BookView {
            id: self.id,
            title: self.title@,
            author: self.author@,
            category: opt_view(self.category),
            status: self.status,
        }
    }
}

/// What a client gives to add a book.
#[derive(Debug)]
pub struct NewBook {
    pub title: String,
    pub author: String,
    pub category: Option<String>,
}

/// A partial edit of a book: each absent field keeps its stored value.
#[derive(Debug)]
pub struct UpdateBook {
    pub title: Option<String>,
    pub author: Option<String>,
    pub category: Option<String>,
    pub status: Option<Status>,
}

/// Filters, sort and page of a book listing.
#[derive(Debug)]
pub struct SearchParams {
    pub title: Option<String>,
    pub author: Option<String>,
    pub category: Option<String>,
    pub status: Option<Status>,
    pub order: Option<Order>,
    pub order_by: Option<String>,
    pub limit: Option<u32>,
    pub page: Option<u32>,
}

pub open spec fn book_views(v: Seq<Book>) -> Seq<BookView> {
    v.map_values(|b: Book| b@)
}

impl Book {
    /// A new available book with the given id.
    pub fn from_new(id: i32, data: &NewBook) -> (r: Book)
        ensures
            r@ == (BookView {
                id,
                title: data.title@,
                author: data.author@,
                category: opt_view(data.category),
                status: Status::Available,
            }),
    {
        Book {
            id,
            title: data.title.clone(),
            author: data.author.clone(),
            category: copy_opt(&data.category),
            status: Status::Available,
        }
    }

    /// A copy with the same fields.
    pub fn copy(&self) -> (r: Book)
        ensures
            r@ == self@,
    {
        Book {
            id: self.id,
            title: self.title.clone(),
            author: self.author.clone(),
            category: copy_opt(&self.category),
            status: self.status,
        }
    }

    /// This book with the fields that `data` gives replaced.
    pub fn merged(&self, data: &UpdateBook) -> (r: Book)
        ensures
            r@ == merge_book(self@, *data),
    {
        Book {
            id: self.id,
            title: match &data.title {
                Some(t) => t.clone(),
                None => self.title.clone(),
            },
            author: match &data.author {
                Some(a) => a.clone(),
                None => self.author.clone(),
            },
            category: match &data.category {
                Some(c) => Some(c.clone()),
                None => copy_opt(&self.category),
            },
            status: match data.status {
                Some(s) => s,
                None => self.status,
            },
        }
    }
}

pub open spec fn merge_book(b: BookView, data: UpdateBook) -> BookView {
    BookView {
        id: b.id,
        title: match data.title {
            Some(t) => t@,
            None => b.title,
        },
        author: match data.author {
            Some(a) => a@,
            None => b.author,
        },
        category: match data.category {
            Some(c) => Some(c@),
            None => b.category,
        },
        status: match data.status {
            Some(s) => s,
            None => b.status,
        },
    }
}

/// The columns a book listing may be sorted by.
pub open spec fn book_column_allowed(c: Seq<char>) -> bool {
    c == "id"@ || c == "title"@ || c == "author"@ || c == "category"@ || c == "status"@
        || c == "created_at"@
}

/// The column a book listing sorts by: the requested one when it is allowed,
/// else `id`.
pub open spec fn book_sort_column(order_by: Option<String>) -> Seq<char> {
    match order_by {
        Some(c) if book_column_allowed(c@) => c@,
        _ => "id"@,
    }
}

/// A book passes every filter of `p`.
pub open spec fn book_matches(b: BookView, p: &SearchParams) -> bool {
    &&& filter_accepts(p.title, Some(b.title))
    &&& filter_accepts(p.author, Some(b.author))
    &&& filter_accepts(p.category, b.category)
    &&& status_accepts(effective_status(p.status), b.status)
}

/// What a book is sorted by in column `col`. Ids are handed out in the
/// order books are added, so `created_at` sorts by id, as `id` does.
pub open spec fn book_key(b: BookView, col: Seq<char>) -> KeyView {
    if col == "title"@ {
        KeyView::Text(b.title)
    } else if col == "author"@ {
        KeyView::Text(b.author)
    } else if col == "category"@ {
        match b.category {
            Some(c) => KeyView::Text(c),
            None => KeyView::Missing,
        }
    } else if col == "status"@ {
        KeyView::Text(status_text(b.status))
    } else {
        KeyView::Num(b.id as int)
    }
}

pub fn book_sort_key(b: &Book, col: &str) -> (r: SortKey)
    ensures
        r@ == book_key(b@, col@),
{
    if text_eq(col, "title") {
        SortKey::Text(chars_of(b.title.as_str()))
    } else if text_eq(col, "author") {
        SortKey::Text(chars_of(b.author.as_str()))
    } else if text_eq(col, "category") {
        match &b.category {
            Some(c) => SortKey::Text(chars_of(c.as_str())),
            None => SortKey::Missing,
        }
    } else if text_eq(col, "status") {
        SortKey::Text(chars_of(b.status.as_str()))
    } else {
        SortKey::Num(b.id as i64)
    }
}

pub fn book_passes(b: &Book, p: &SearchParams) -> (r: bool)
    ensures
        r == book_matches(b@, p),
{
    let st = p.get_status();
    filter_check(&p.title, Some(&b.title)) && filter_check(&p.author, Some(&b.author))
        && filter_check(&p.category, b.category.as_ref()) && (st == Status::All || st == b.status)
}

impl SearchParams {
    /// The number of rows to skip.
    pub fn get_offset(&self) -> (r: u64)
        ensures
            r == offset_spec(self.page, self.limit),
    {
        offset_of(self.page, self.limit)
    }

    /// The number of rows to return.
    pub fn get_limit(&self) -> (r: u32)
        ensures
            r == limit_spec(self.limit),
    {
        crate::params::limit_of(self.limit)
    }

    /// The column to sort by, from the allowed ones only.
    pub fn get_order_by(&self) -> (r: String)
        ensures
            r@ == book_sort_column(self.order_by),
    {
        proof {
            reveal_strlit("id");
            reveal_strlit("title");
            reveal_strlit("author");
            reveal_strlit("category");
            reveal_strlit("status");
        }
        match &self.order_by {
            Some(c) => {
                let s = c.as_str();
                if text_eq(s, "id") || text_eq(s, "title") || text_eq(s, "author") || text_eq(
                    s,
                    "category",
                ) || text_eq(s, "status") || text_eq(s, "created_at") {
                    c.clone()
                } else {
                    "id".to_owned()
                }
            },
            None => "id".to_owned(),
        }
    }

    /// The sort direction: ascending unless one is given.
    pub fn get_order(&self) -> (r: Order)
        ensures
            r == effective_order(self.order),
    {
        match self.order {
            Some(o) => o,
            None => Order::ASC,
        }
    }

    /// The status filter: `All` unless one is given.
    pub fn get_status(&self) -> (r: Status)
        ensures
            r == effective_status(self.status),
    {
        match self.status {
            Some(s) => s,
            None => Status::All,
        }
    }
}

} // verus!
