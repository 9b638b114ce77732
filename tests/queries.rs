use library_store::books::{NewBook, SearchParams};
use library_store::borrowings::{BorrowParams, BorrowingSearchParams};
use library_store::members::{MemberSearchParams, NewMember};
use library_store::params::{offset_of, Order, Status};
use library_store::store::Library;
use library_store::text::contains;

fn params() -> SearchParams {
    SearchParams {
        title: None,
        author: None,
        category: None,
        status: None,
        order: None,
        order_by: None,
        limit: None,
        page: None,
    }
}

fn member_params() -> MemberSearchParams {
    MemberSearchParams {
        first_name: None,
        last_name: None,
        email: None,
        phone: None,
        order: None,
        order_by: None,
        limit: None,
        page: None,
    }
}

fn catalog() -> Library {
    let mut lib = Library::new();
    for (t, a, c) in [
        ("Dune", "Frank Herbert", Some("scifi")),
        ("Emma", "Jane Austen", Some("classic")),
        ("Beloved", "Toni Morrison", None),
        ("Anathem", "Neal Stephenson", Some("scifi")),
    ] {
        lib.create_book(&NewBook {
            title: t.to_string(),
            author: a.to_string(),
            category: c.map(|x| x.to_string()),
        })
        .unwrap();
    }
    lib
}

fn titles(lib: &Library, p: &SearchParams) -> Vec<String> {
    lib.search_books(p).into_iter().map(|b| b.title).collect()
}

#[test]
fn offsets_and_limits() {
    let p = params();
    assert_eq!(p.get_offset(), 0);
    assert_eq!(p.get_limit(), 10);
    let page_zero = SearchParams { page: Some(0), ..params() };
    assert_eq!(page_zero.get_offset(), 0);
    assert_eq!(page_zero.get_limit(), 10);
    let second_page = SearchParams { page: Some(2), limit: Some(5), ..params() };
    assert_eq!(second_page.get_offset(), 5);
    let third_page = SearchParams { page: Some(3), ..params() };
    assert_eq!(third_page.get_offset(), 20);
    assert_eq!(offset_of(Some(u32::MAX), Some(u32::MAX)), (u32::MAX as u64 - 1) * u32::MAX as u64);
    let m = MemberSearchParams { page: Some(2), limit: Some(5), ..member_params() };
    assert_eq!(m.get_offset(), 5);
    let b = BorrowParams { current: None, page: Some(4), limit: None, order: None, status: None };
    assert_eq!(b.get_offset(), 30);
    assert_eq!(b.get_order(), Order::ASC);
    assert_eq!(b.get_status(), Status::All);
}

#[test]
fn order_by_allowlist() {
    let p = SearchParams { order_by: Some("title".to_string()), ..params() };
    assert_eq!(p.get_order_by(), "title");
    let bad = SearchParams { order_by: Some("title; DROP TABLE BOOKS".to_string()), ..params() };
    assert_eq!(bad.get_order_by(), "id");
    assert_eq!(params().get_order_by(), "id");
    let created = SearchParams { order_by: Some("created_at".to_string()), ..params() };
    assert_eq!(created.get_order_by(), "created_at");
    let m = MemberSearchParams { order_by: Some("email".to_string()), ..member_params() };
    assert_eq!(m.get_order_by(), "email");
    let m = MemberSearchParams { order_by: Some("status".to_string()), ..member_params() };
    assert_eq!(m.get_order_by(), "id");
    let b = BorrowingSearchParams {
        book_id: None,
        member_id: None,
        status: None,
        from_date: None,
        to_date: None,
        order: None,
        order_by: Some("borrow_date".to_string()),
        limit: None,
        page: Some(2),
    };
    assert_eq!(b.get_order_by(), "borrow_date");
    assert_eq!(b.get_order(), Order::ASC);
    assert_eq!(b.get_offset(), 10);
}

#[test]
fn unknown_sort_column_sorts_by_id() {
    let lib = catalog();
    let bad = SearchParams { order_by: Some("price".to_string()), ..params() };
    assert_eq!(titles(&lib, &bad), titles(&lib, &params()));
    assert_eq!(titles(&lib, &params()), vec!["Dune", "Emma", "Beloved", "Anathem"]);
}

#[test]
fn sorts_by_column_and_direction() {
    let lib = catalog();
    let by_title = SearchParams { order_by: Some("title".to_string()), ..params() };
    assert_eq!(titles(&lib, &by_title), vec!["Anathem", "Beloved", "Dune", "Emma"]);
    let desc = SearchParams {
        order_by: Some("title".to_string()),
        order: Some(Order::DESC),
        ..params()
    };
    assert_eq!(titles(&lib, &desc), vec!["Emma", "Dune", "Beloved", "Anathem"]);
    let by_cat = SearchParams { order_by: Some("category".to_string()), ..params() };
    let got = titles(&lib, &by_cat);
    // the two science fiction books tie on the column and keep stored order
    assert_eq!(got, vec!["Beloved", "Emma", "Dune", "Anathem"]);
    let by_cat_desc = SearchParams {
        order_by: Some("category".to_string()),
        order: Some(Order::DESC),
        ..params()
    };
    assert_eq!(titles(&lib, &by_cat_desc), vec!["Dune", "Anathem", "Emma", "Beloved"]);
}

#[test]
fn filters_by_substring_and_status() {
    let mut lib = catalog();
    let p = SearchParams { author: Some("en".to_string()), ..params() };
    assert_eq!(titles(&lib, &p), vec!["Emma", "Anathem"]);
    let p = SearchParams { category: Some("sci".to_string()), ..params() };
    assert_eq!(titles(&lib, &p), vec!["Dune", "Anathem"]);
    let m = lib
        .create_member(&NewMember {
            first_name: "Ada".to_string(),
            last_name: "Lovelace".to_string(),
            email: "ada@example.org".to_string(),
            phone: None,
        })
        .unwrap();
    lib.borrow(2, m, 1).unwrap();
    let out = SearchParams { status: Some(Status::Borrowed), ..params() };
    assert_eq!(titles(&lib, &out), vec!["Emma"]);
    let avail = SearchParams { status: Some(Status::Available), ..params() };
    assert_eq!(titles(&lib, &avail), vec!["Dune", "Beloved", "Anathem"]);
    let all = SearchParams { status: Some(Status::All), ..params() };
    assert_eq!(titles(&lib, &all), titles(&lib, &params()));
    assert_eq!(titles(&lib, &all).len(), 4);
}

#[test]
fn pages_of_a_listing() {
    let lib = catalog();
    let p = SearchParams { page: Some(2), limit: Some(3), ..params() };
    assert_eq!(titles(&lib, &p), vec!["Anathem"]);
    let p = SearchParams { page: Some(1), limit: Some(2), ..params() };
    assert_eq!(titles(&lib, &p), vec!["Dune", "Emma"]);
    let p = SearchParams { page: Some(9), ..params() };
    assert!(titles(&lib, &p).is_empty());
}

#[test]
fn member_listing() {
    let mut lib = Library::new();
    for (f, l, e, ph) in [
        ("Grace", "Hopper", "grace@navy.mil", Some("123")),
        ("Ada", "Lovelace", "ada@example.org", None),
        ("Alan", "Turing", "alan@example.org", Some("456")),
    ] {
        lib.create_member(&NewMember {
            first_name: f.to_string(),
            last_name: l.to_string(),
            email: e.to_string(),
            phone: ph.map(|x| x.to_string()),
        })
        .unwrap();
    }
    let names = |p: &MemberSearchParams| -> Vec<String> {
        lib.search_members(p).into_iter().map(|m| m.first_name).collect()
    };
    assert_eq!(names(&member_params()), vec!["Grace", "Ada", "Alan"]);
    let by_first = MemberSearchParams { order_by: Some("first_name".to_string()), ..member_params() };
    assert_eq!(names(&by_first), vec!["Ada", "Alan", "Grace"]);
    let bad = MemberSearchParams { order_by: Some("age".to_string()), ..member_params() };
    assert_eq!(names(&bad), names(&member_params()));
    let mail = MemberSearchParams { email: Some("example".to_string()), ..member_params() };
    assert_eq!(names(&mail), vec!["Ada", "Alan"]);
    let phone = MemberSearchParams { phone: Some("4".to_string()), ..member_params() };
    assert_eq!(names(&phone), vec!["Alan"]);
    let desc = MemberSearchParams { order: Some(Order::DESC), ..member_params() };
    assert_eq!(names(&desc), vec!["Alan", "Ada", "Grace"]);
}

#[test]
fn words_of_order_and_status() {
    assert_eq!(Order::ASC.as_str(), "ASC");
    assert_eq!(Order::DESC.as_str(), "DESC");
    assert_eq!(Order::from_text("desc"), Some(Order::DESC));
    assert_eq!(Order::from_text("asc"), Some(Order::ASC));
    assert_eq!(Order::from_text("DESC"), None);
    assert_eq!(Order::from_option(None), Order::ASC);
    assert_eq!(Order::from_option(Some("sideways".to_string())), Order::ASC);
    assert_eq!(Order::from_option(Some("desc".to_string())), Order::DESC);
    assert_eq!(Status::Available.as_str(), "available");
    assert_eq!(Status::Borrowed.as_str(), "borrowed");
    assert_eq!(Status::All.as_str(), "all");
    assert_eq!(Status::All.as_null_str(), None);
    assert_eq!(Status::Borrowed.as_null_str(), Some("borrowed"));
    assert_eq!(Status::Borrowed.to_text(), "borrowed".to_string());
    assert_eq!(Status::from_text("BORROWED"), Some(Status::Borrowed));
    assert_eq!(Status::from_text("Available"), Some(Status::Available));
    assert_eq!(Status::from_text("all"), None);
    assert_eq!(Status::from_option(Some("Borrowed".to_string())), Status::Borrowed);
    assert_eq!(Status::from_option(Some("lost".to_string())), Status::Available);
    assert_eq!(Status::from_option(None), Status::Available);
    let p = SearchParams { status: Some(Status::Borrowed), order: Some(Order::DESC), ..params() };
    assert_eq!(p.get_status(), Status::Borrowed);
    assert_eq!(p.get_order(), Order::DESC);
    assert_eq!(params().get_status(), Status::All);
    assert_eq!(params().get_order(), Order::ASC);
}

#[test]
fn substring_containment() {
    assert!(contains("Frank Herbert", "Herb"));
    assert!(contains("abc", ""));
    assert!(contains("", ""));
    assert!(!contains("", "a"));
    assert!(!contains("Herbert", "herb"));
    assert!(contains("aaab", "aab"));
}

#[test]
fn created_at_sorts_in_order_of_addition() {
    let lib = catalog();
    let newest = SearchParams {
        order_by: Some("created_at".to_string()),
        order: Some(Order::DESC),
        ..params()
    };
    assert_eq!(titles(&lib, &newest), vec!["Anathem", "Beloved", "Emma", "Dune"]);
}
