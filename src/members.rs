use vstd::prelude::*;

use crate::params::{effective_order, limit_spec, offset_of, offset_spec, Order};
use crate::sort::{KeyView, SortKey};
use crate::text::{chars_of, copy_opt, filter_accepts, filter_check, opt_view, text_eq};

verus! {

/// A member who may borrow books.
#[derive(Debug)]
pub struct Member {
    pub id: i32,
    pub first_name: String,
    pub last_name: String,
    pub email: String,
    pub phone: Option<String>,
}

pub struct MemberView {
    pub id: i32,
    pub first_name: Seq<char>,
    pub last_name: Seq<char>,
    pub email: Seq<char>,
    pub phone: Option<Seq<char>>,
}

impl View for Member {
    type V = MemberView;

    open spec fn view(&self) -> MemberView {
        MemberView {
            id: self.id,
            first_name: self.first_name@,
            last_name: self.last_name@,
            email: self.email@,
            phone: opt_view(self.phone),
        }
    }
}

/// What a client gives to register a member.
#[derive(Debug)]
pub struct NewMember {
    pub first_name: String,
    pub last_name: String,
    pub email: String,
    pub phone: Option<String>,
}

/// A partial edit of a member: each absent field keeps its stored value.
#[derive(Debug)]
pub struct UpdateMember {
    pub first_name: Option<String>,
    pub last_name: Option<String>,
    pub email: Option<String>,
    pub phone: Option<String>,
}

/// Filters, sort and page of a member listing.
#[derive(Debug)]
pub struct MemberSearchParams {
    pub first_name: Option<String>,
    pub last_name: Option<String>,
    pub email: Option<String>,
    pub phone: Option<String>,
    pub order: Option<Order>,
    pub order_by: Option<String>,
    pub limit: Option<u32>,
    pub page: Option<u32>,
}

pub open spec fn member_views(v: Seq<Member>) -> Seq<MemberView> {
    v.map_values(|m: Member| m@)
}

pub open spec fn merge_member(m: MemberView, data: UpdateMember) -> MemberView {
    MemberView {
        id: m.id,
        first_name: match data.first_name {
            Some(t) => t@,
            None => m.first_name,
        },
        last_name: match data.last_name {
            Some(t) => t@,
            None => m.last_name,
        },
        email: match data.email {
            Some(t) => t@,
            None => m.email,
        },
        phone: match data.phone {
            Some(t) => Some(t@),
            None => m.phone,
        },
    }
}

impl Member {
    /// A new member with the given id.
    pub fn from_new(id: i32, data: &NewMember) -> (r: Member)
        ensures
            r@ == (MemberView {
                id,
                first_name: data.first_name@,
                last_name: data.last_name@,
                email: data.email@,
                phone: opt_view(data.phone),
            }),
    {
        Member {
            id,
            first_name: data.first_name.clone(),
            last_name: data.last_name.clone(),
            email: data.email.clone(),
            phone: copy_opt(&data.phone),
        }
    }

    /// A copy with the same fields.
    pub fn copy(&self) -> (r: Member)
        ensures
            r@ == self@,
    {
        Member {
            id: self.id,
            first_name: self.first_name.clone(),
            last_name: self.last_name.clone(),
            email: self.email.clone(),
            phone: copy_opt(&self.phone),
        }
    }

    /// This member with the fields that `data` gives replaced.
    pub fn merged(&self, data: &UpdateMember) -> (r: Member)
        ensures
            r@ == merge_member(self@, *data),
    {
        Member {
            id: self.id,
            first_name: match &data.first_name {
                Some(t) => t.clone(),
                None => self.first_name.clone(),
            },
            last_name: match &data.last_name {
                Some(t) => t.clone(),
                None => self.last_name.clone(),
            },
            email: match &data.email {
                Some(t) => t.clone(),
                None => self.email.clone(),
            },
            phone: match &data.phone {
                Some(t) => Some(t.clone()),
                None => copy_opt(&self.phone),
            },
        }
    }
}

/// The columns a member listing may be sorted by.
pub open spec fn member_column_allowed(c: Seq<char>) -> bool {
    c == "id"@ || c == "first_name"@ || c == "last_name"@ || c == "email"@ || c == "phone"@
}

/// The column a member listing sorts by: the requested one when it is
/// allowed, else `id`.
pub open spec fn member_sort_column(order_by: Option<String>) -> Seq<char> {
    match order_by {
        Some(c) if member_column_allowed(c@) => c@,
        _ => "id"@,
    }
}

/// A member passes every filter of `p`.
pub open spec fn member_matches(m: MemberView, p: &MemberSearchParams) -> bool {
    &&& filter_accepts(p.first_name, Some(m.first_name))
    &&& filter_accepts(p.last_name, Some(m.last_name))
    &&& filter_accepts(p.email, Some(m.email))
    &&& filter_accepts(p.phone, m.phone)
}

/// What a member is sorted by in column `col`.
pub open spec fn member_key(m: MemberView, col: Seq<char>) -> KeyView {
    if col == "first_name"@ {
        KeyView::Text(m.first_name)
    } else if col == "last_name"@ {
        KeyView::Text(m.last_name)
    } else if col == "email"@ {
        KeyView::Text(m.email)
    } else if col == "phone"@ {
        match m.phone {
            Some(c) => KeyView::Text(c),
            None => KeyView::Missing,
        }
    } else {
        KeyView::Num(m.id as int)
    }
}

pub fn member_sort_key(m: &Member, col: &str) -> (r: SortKey)
    ensures
        r@ == member_key(m@, col@),
{
    if text_eq(col, "first_name") {
        SortKey::Text(chars_of(m.first_name.as_str()))
    } else if text_eq(col, "last_name") {
        SortKey::Text(chars_of(m.last_name.as_str()))
    } else if text_eq(col, "email") {
        SortKey::Text(chars_of(m.email.as_str()))
    } else if text_eq(col, "phone") {
        match &m.phone {
            Some(c) => SortKey::Text(chars_of(c.as_str())),
            None => SortKey::Missing,
        }
    } else {
        SortKey::Num(m.id as i64)
    }
}

pub fn member_passes(m: &Member, p: &MemberSearchParams) -> (r: bool)
    ensures
        r == member_matches(m@, p),
{
    filter_check(&p.first_name, Some(&m.first_name)) && filter_check(&p.last_name, Some(&m.last_name))
        && filter_check(&p.email, Some(&m.email)) && filter_check(&p.phone, m.phone.as_ref())
}

impl MemberSearchParams {
    /// The number of rows to skip.
    pub fn get_offset(&self) -> (r: u64)
        ensures
            r == offset_spec(self.page, self.limit),
    {
        offset_of(self.page, self.limit)
    }

    /// The number of rows to return.
    pub fn get_limit(&self) -> (r: u32)
        ensures
            r == limit_spec(self.limit),
    {
        crate::params::limit_of(self.limit)
    }

    /// The column to sort by, from the allowed ones only.
    pub fn get_order_by(&self) -> (r: String)
        ensures
            r@ == member_sort_column(self.order_by),
    {
        proof {
            reveal_strlit("id");
        }
        match &self.order_by {
            Some(c) => {
                let s = c.as_str();
                if text_eq(s, "id") || text_eq(s, "first_name") || text_eq(s, "last_name")
                    || text_eq(s, "email") || text_eq(s, "phone") {
                    c.clone()
                } else {
                    "id".to_owned()
                }
            },
            None => "id".to_owned(),
        }
    }

    /// The sort direction: ascending unless one is given.
    pub fn get_order(&self) -> (r: Order)
        ensures
            r == effective_order(self.order),
    {
        match self.order {
            Some(o) => o,
            None => Order::ASC,
        }
    }
}

} // verus!
