use vstd::prelude::*;

use crate::text::text_eq;

verus! {

/// Number of rows a listing returns when no limit is given.
pub const DEFAULT_LIMIT: u32 = 10;

/// Sort direction of a listing.
#[derive(Clone, Copy, Debug, PartialEq, Eq, Structural)]
pub enum Order {
    ASC,
    DESC,
}

/// Lending status of a book, or the sentinel that asks for every status.
#[derive(Clone, Copy, Debug, PartialEq, Eq, Structural)]
pub enum Status {
    Available,
    Borrowed,
    All,
}

pub open spec fn order_text(o: Order) -> Seq<char> {
    match o {
        Order::ASC => seq!['A', 'S', 'C'],
        Order::DESC => seq!['D', 'E', 'S', 'C'],
    }
}

pub open spec fn status_text(s: Status) -> Seq<char> {
    match s {
        Status::Available => seq!['a', 'v', 'a', 'i', 'l', 'a', 'b', 'l', 'e'],
        Status::Borrowed => seq!['b', 'o', 'r', 'r', 'o', 'w', 'e', 'd'],
        Status::All => seq!['a', 'l', 'l'],
    }
}

/// The direction named by a lower-case keyword, if any.
pub open spec fn order_of_text(s: Seq<char>) -> Option<Order> {
    if s == order_text(Order::ASC).map_values(|c: char| lower_ascii(c)) {
        Some(Order::ASC)
    } else if s == order_text(Order::DESC).map_values(|c: char| lower_ascii(c)) {
        Some(Order::DESC)
    } else {
        None
    }
}

/// The stored status named by an already lower-cased word, if any.
pub open spec fn status_of_lower(s: Seq<char>) -> Option<Status> {
    if s == status_text(Status::Available) {
        Some(Status::Available)
    } else if s == status_text(Status::Borrowed) {
        Some(Status::Borrowed)
    } else {
        None
    }
}

pub open spec fn lower_ascii(c: char) -> char {
    if 'A' <= c && c <= 'Z' {
        ((c as u32) + 32) as char
    } else {
        c
    }
}

/// What `str::to_lowercase` returns for a string.
pub uninterp spec fn lower_of(s: Seq<char>) -> Seq<char>;

/// Relies on `str::to_lowercase`: the result depends on the characters alone.
#[verifier::external_body]
fn to_lower(s: &str) -> (r: String)
    ensures
        r@ == lower_of(s@),
{
    s.to_lowercase()
}

impl Order {
    /// The keyword that the store's query text uses for this direction.
    pub fn as_str(&self) -> (r: &str)
        ensures
            r@ == order_text(*self),
    {
        proof {
            reveal_strlit("ASC");
            reveal_strlit("DESC");
        }
        match self {
            Order::ASC => "ASC",
            Order::DESC => "DESC",
        }
    }

    /// Reads a direction written `asc` or `desc`.
    pub fn from_text(s: &str) -> (r: Option<Order>)
        ensures
            r == order_of_text(s@),
    {
        proof {
            reveal_strlit("asc");
            reveal_strlit("desc");
            assert(order_text(Order::ASC).map_values(|c: char| lower_ascii(c)) == "asc"@);
            assert(order_text(Order::DESC).map_values(|c: char| lower_ascii(c)) == "desc"@);
        }
        if text_eq(s, "asc") {
            Some(Order::ASC)
        } else if text_eq(s, "desc") {
            Some(Order::DESC)
        } else {
            None
        }
    }

    /// The direction a listing uses for an optional request word: ascending
    /// when the word is absent or not a direction.
    pub fn from_option(opt: Option<String>) -> (r: Order)
        ensures
            r == (match opt {
                Some(s) => match order_of_text(s@) {
                    Some(o) => o,
                    None => Order::ASC,
                },
                None => Order::ASC,
            }),
    {
        match opt {
            Some(s) => match Order::from_text(s.as_str()) {
                Some(o) => o,
                None => Order::ASC,
            },
            None => Order::ASC,
        }
    }
}

impl Status {
    /// The stored word for a concrete status; `None` for the sentinel `All`.
    pub fn as_null_str(&self) -> (r: Option<&str>)
        ensures
            match *self {
                Status::All => r.is_none(),
                _ => r.is_some() && r.unwrap()@ == status_text(*self),
            },
    {
        proof {
            reveal_strlit("available");
            reveal_strlit("borrowed");
        }
        match self {
            Status::Available => Some("available"),
            Status::Borrowed => Some("borrowed"),
            Status::All => None,
        }
    }

    /// The word for this status.
    pub fn as_str(&self) -> (r: &str)
        ensures
            r@ == status_text(*self),
    {
        proof {
            reveal_strlit("available");
            reveal_strlit("borrowed");
            reveal_strlit("all");
        }
        match self {
            Status::Available => "available",
            Status::Borrowed => "borrowed",
            Status::All => "all",
        }
    }

    /// The word for this status, as an owned string.
    pub fn to_text(&self) -> (r: String)
        ensures
            r@ == status_text(*self),
    {
        self.as_str().to_owned()
    }

    /// Reads a stored status from a word that is already lower case.
    pub fn from_lower(s: &str) -> (r: Option<Status>)
        ensures
            r == status_of_lower(s@),
    {
        proof {
            reveal_strlit("available");
            reveal_strlit("borrowed");
            assert(status_text(Status::Available) == "available"@);
            assert(status_text(Status::Borrowed) == "borrowed"@);
        }
        if text_eq(s, "available") {
            Some(Status::Available)
        } else if text_eq(s, "borrowed") {
            Some(Status::Borrowed)
        } else {
            None
        }
    }

    /// Reads a stored status in any letter case.
    pub fn from_text(s: &str) -> (r: Option<Status>)
        ensures
            r == status_of_lower(lower_of(s@)),
    {
        let lower = to_lower(s);
        Status::from_lower(lower.as_str())
    }

    /// The status of a stored row whose word may be missing or unknown:
    /// such a row counts as available.
    pub fn from_option(opt: Option<String>) -> (r: Status)
        ensures
            r == (match opt {
                Some(s) => match status_of_lower(lower_of(s@)) {
                    Some(st) => st,
                    None => Status::Available,
                },
                None => Status::Available,
            }),
    {
        match opt {
            Some(s) => match Status::from_text(s.as_str()) {
                Some(st) => st,
                None => Status::Available,
            },
            None => Status::Available,
        }
    }
}

pub open spec fn effective_order(order: Option<Order>) -> Order {
    match order {
        Some(o) => o,
        None => Order::ASC,
    }
}

pub open spec fn effective_status(status: Option<Status>) -> Status {
    match status {
        Some(s) => s,
        None => Status::All,
    }
}

/// A status filter lets a row through when it is `All` or names the row's
/// status.
pub open spec fn status_accepts(filter: Status, s: Status) -> bool {
    filter == Status::All || filter == s
}

/// The number of rows a listing returns.
pub open spec fn limit_spec(limit: Option<u32>) -> u32 {
    match limit {
        Some(l) => l,
        None => DEFAULT_LIMIT,
    }
}

/// The number of rows a listing skips: pages count from one, and page zero
/// or no page means the first page.
pub open spec fn offset_spec(page: Option<u32>, limit: Option<u32>) -> int {
    match page {
        Some(p) if p > 0 => (p - 1) * limit_spec(limit),
        _ => 0,
    }
}

pub fn limit_of(limit: Option<u32>) -> (r: u32)
    ensures
        r == limit_spec(limit),
{
    match limit {
        Some(l) => l,
        None => DEFAULT_LIMIT,
    }
}

pub fn offset_of(page: Option<u32>, limit: Option<u32>) -> (r: u64)
    ensures
        r == offset_spec(page, limit),
{
    match page {
        Some(p) if p > 0 => {
            let l = limit_of(limit);
            proof {
                vstd::arithmetic::mul::lemma_mul_upper_bound((p - 1) as int, u32::MAX as int, l as int, u32::MAX as int);
            }
            ((p - 1) as u64) * (l as u64)
        },
        _ => 0,
    }
}

} // verus!
