use library_store::books::{NewBook, UpdateBook};
use library_store::borrowings::BorrowParams;
use library_store::members::NewMember;
use library_store::params::{Order, Status};
use library_store::store::{Library, LibraryError};

fn book(title: &str, author: &str, category: Option<&str>) -> NewBook {
    NewBook {
        title: title.to_string(),
        author: author.to_string(),
        category: category.map(|c| c.to_string()),
    }
}

fn member(first: &str, last: &str) -> NewMember {
    NewMember {
        first_name: first.to_string(),
        last_name: last.to_string(),
        email: format!("{}@example.org", first.to_lowercase()),
        phone: None,
    }
}

fn open_rows(lib: &Library, book_id: i32) -> usize {
    lib.borrowings()
        .iter()
        .filter(|r| r.book_id == Some(book_id) && r.return_date.is_none())
        .count()
}

fn no_update() -> UpdateBook {
    UpdateBook { title: None, author: None, category: None, status: None }
}

fn all_params() -> BorrowParams {
    BorrowParams { current: None, page: None, limit: None, order: None, status: None }
}

#[test]
fn borrow_return_scenario() {
    let mut lib = Library::new();
    let b1 = lib.create_book(&book("Dune", "Herbert", Some("fiction"))).unwrap();
    let m1 = lib.create_member(&member("Ada", "Lovelace")).unwrap();
    let m2 = lib.create_member(&member("Alan", "Turing")).unwrap();
    assert_eq!(lib.get_book(b1).unwrap().status, Status::Available);

    assert_eq!(lib.borrow(b1, m1, 738000), Ok(1));
    assert_eq!(lib.get_book(b1).unwrap().status, Status::Borrowed);
    assert_eq!(lib.borrowings().len(), 1);
    assert_eq!(open_rows(&lib, b1), 1);

    assert_eq!(lib.borrow(b1, m2, 738001), Err(LibraryError::BookUnavailable));
    assert_eq!(lib.borrowings().len(), 1);

    assert_eq!(lib.return_book(b1, 738005), Ok(()));
    assert_eq!(lib.get_book(b1).unwrap().status, Status::Available);
    assert_eq!(lib.borrowings()[0].return_date, Some(738005));
    assert_eq!(open_rows(&lib, b1), 0);

    assert_eq!(lib.return_book(b1, 738006), Err(LibraryError::NotBorrowed));
    assert_eq!(lib.borrowings()[0].return_date, Some(738005));
}

#[test]
fn second_borrow_of_same_book_conflicts() {
    let mut lib = Library::new();
    let b = lib.create_book(&book("Emma", "Austen", None)).unwrap();
    let m1 = lib.create_member(&member("Ada", "Lovelace")).unwrap();
    let m2 = lib.create_member(&member("Alan", "Turing")).unwrap();
    let first = lib.borrow(b, m1, 10);
    let second = lib.borrow(b, m2, 10);
    assert!(first.is_ok());
    assert_eq!(second, Err(LibraryError::BookUnavailable));
    assert_eq!(open_rows(&lib, b), 1);
}

#[test]
fn status_matches_open_loans_after_each_step() {
    let mut lib = Library::new();
    let a = lib.create_book(&book("A", "X", None)).unwrap();
    let b = lib.create_book(&book("B", "Y", None)).unwrap();
    let m = lib.create_member(&member("Ada", "Lovelace")).unwrap();
    let steps: Vec<Box<dyn Fn(&mut Library)>> = vec![
        Box::new(move |l| { let _ = l.borrow(a, m, 1); }),
        Box::new(move |l| { let _ = l.borrow(b, m, 2); }),
        Box::new(move |l| { let _ = l.return_book(a, 3); }),
        Box::new(move |l| { let _ = l.return_book(a, 4); }),
        Box::new(move |l| { let _ = l.borrow(a, m, 5); }),
        Box::new(move |l| { let _ = l.return_book(b, 6); }),
    ];
    for step in steps {
        step(&mut lib);
        for bk in lib.books() {
            let open = open_rows(&lib, bk.id);
            assert!(open <= 1);
            assert_eq!(bk.status == Status::Borrowed, open == 1);
        }
    }
}

#[test]
fn return_without_loan_keeps_status() {
    let mut lib = Library::new();
    let b = lib.create_book(&book("Emma", "Austen", None)).unwrap();
    assert_eq!(lib.return_book(b, 5), Err(LibraryError::NotBorrowed));
    assert_eq!(lib.get_book(b).unwrap().status, Status::Available);

    // marked borrowed by a direct edit, with no loan behind it
    let edit = UpdateBook { status: Some(Status::Borrowed), ..no_update() };
    assert_eq!(lib.update_book(b, &edit), Ok(()));
    assert_eq!(lib.return_book(b, 5), Err(LibraryError::NoOpenLoan));
    assert_eq!(lib.get_book(b).unwrap().status, Status::Borrowed);
    assert_eq!(lib.borrowings().len(), 0);
}

#[test]
fn borrow_errors_in_order() {
    let mut lib = Library::new();
    let b = lib.create_book(&book("Emma", "Austen", None)).unwrap();
    let m = lib.create_member(&member("Ada", "Lovelace")).unwrap();
    assert_eq!(lib.borrow(99, 42, 1), Err(LibraryError::MemberNotFound));
    assert_eq!(lib.borrow(99, m, 1), Err(LibraryError::BookNotFound));
    assert_eq!(lib.return_book(99, 1), Err(LibraryError::BookNotFound));
    assert!(lib.borrow(b, m, 1).is_ok());
    // a direct edit marks the book available while the loan stays open
    let edit = UpdateBook { status: Some(Status::Available), ..no_update() };
    assert_eq!(lib.update_book(b, &edit), Ok(()));
    assert_eq!(lib.borrow(b, m, 2), Err(LibraryError::AlreadyBorrowed));
    assert_eq!(lib.borrowings().len(), 1);
}

#[test]
fn delete_borrowing_resets_book() {
    let mut lib = Library::new();
    let b = lib.create_book(&book("Emma", "Austen", None)).unwrap();
    let m = lib.create_member(&member("Ada", "Lovelace")).unwrap();
    let loan = lib.borrow(b, m, 1).unwrap();
    assert_eq!(lib.delete_borrowing(loan + 10), Err(LibraryError::BorrowingNotFound));
    assert_eq!(lib.delete_borrowing(loan), Ok(()));
    assert_eq!(lib.borrowings().len(), 0);
    assert_eq!(lib.get_book(b).unwrap().status, Status::Available);
}

#[test]
fn delete_guards_open_loans() {
    let mut lib = Library::new();
    let b = lib.create_book(&book("Emma", "Austen", None)).unwrap();
    let m = lib.create_member(&member("Ada", "Lovelace")).unwrap();
    lib.borrow(b, m, 1).unwrap();
    assert_eq!(lib.delete_book(b), Err(LibraryError::BookOnLoan));
    assert_eq!(lib.delete_member(m), Err(LibraryError::MemberOnLoan));
    lib.return_book(b, 2).unwrap();
    assert_eq!(lib.delete_book(b), Ok(()));
    assert_eq!(lib.delete_member(m), Ok(()));
    assert_eq!(lib.get_book(b).map(|x| x.id), Err(LibraryError::BookNotFound));
    assert_eq!(lib.get_member(m).map(|x| x.id), Err(LibraryError::MemberNotFound));
    assert_eq!(lib.delete_book(b), Err(LibraryError::BookNotFound));
    assert_eq!(lib.delete_member(m), Err(LibraryError::MemberNotFound));
}

#[test]
fn update_merges_fields() {
    let mut lib = Library::new();
    let b = lib.create_book(&book("Emma", "Austen", Some("classic"))).unwrap();
    let edit = UpdateBook { title: Some("Persuasion".to_string()), ..no_update() };
    assert_eq!(lib.update_book(b, &edit), Ok(()));
    let got = lib.get_book(b).unwrap();
    assert_eq!(got.title, "Persuasion");
    assert_eq!(got.author, "Austen");
    assert_eq!(got.category, Some("classic".to_string()));
    assert_eq!(got.status, Status::Available);
    let bad = UpdateBook { status: Some(Status::All), ..no_update() };
    assert_eq!(lib.update_book(b, &bad), Err(LibraryError::InvalidStatus));
    assert_eq!(lib.update_book(77, &no_update()), Err(LibraryError::BookNotFound));

    let m = lib.create_member(&member("Ada", "Lovelace")).unwrap();
    let medit = library_store::members::UpdateMember {
        first_name: None,
        last_name: Some("King".to_string()),
        email: None,
        phone: Some("555".to_string()),
    };
    assert_eq!(lib.update_member(m, &medit), Ok(()));
    let got = lib.get_member(m).unwrap();
    assert_eq!(got.first_name, "Ada");
    assert_eq!(got.last_name, "King");
    assert_eq!(got.email, "ada@example.org");
    assert_eq!(got.phone, Some("555".to_string()));
    assert_eq!(lib.update_member(99, &medit), Err(LibraryError::MemberNotFound));
}

#[test]
fn borrowed_books_listing() {
    let mut lib = Library::new();
    let a = lib.create_book(&book("Dune", "Herbert", None)).unwrap();
    let b = lib.create_book(&book("Emma", "Austen", None)).unwrap();
    let m1 = lib.create_member(&member("Ada", "Lovelace")).unwrap();
    let m2 = lib.create_member(&member("Alan", "Turing")).unwrap();
    lib.borrow(a, m1, 100).unwrap();
    lib.return_book(a, 105).unwrap();
    lib.borrow(b, m1, 110).unwrap();
    lib.borrow(a, m2, 120).unwrap();

    let mine = lib.borrows_by_member(m1, &all_params());
    assert_eq!(mine.len(), 2);
    assert_eq!(mine[0].id, a);
    assert_eq!(mine[0].borrower, "Ada Lovelace");
    assert_eq!(mine[0].status, Status::Available);
    assert_eq!(mine[0].return_date, Some(105));
    assert_eq!(mine[1].title, "Emma");
    assert_eq!(mine[1].status, Status::Borrowed);

    let current = BorrowParams { status: Some(Status::Borrowed), ..all_params() };
    let open = lib.borrows_by_member(m1, &current);
    assert_eq!(open.len(), 1);
    assert_eq!(open[0].id, b);

    let newest_first = BorrowParams { order: Some(Order::DESC), ..all_params() };
    let all = lib.all_borrowings(&newest_first);
    let dates: Vec<i32> = all.iter().map(|r| r.borrow_date).collect();
    assert_eq!(dates, vec![120, 110, 100]);
    assert_eq!(all[0].borrower_id, m2);

    let with_all = BorrowParams { status: Some(Status::All), ..all_params() };
    let x: Vec<i32> = lib.all_borrowings(&with_all).iter().map(|r| r.borrow_date).collect();
    let y: Vec<i32> = lib.all_borrowings(&all_params()).iter().map(|r| r.borrow_date).collect();
    assert_eq!(x, y);
    assert_eq!(y, vec![100, 110, 120]);

    let paged = BorrowParams { page: Some(2), limit: Some(2), ..all_params() };
    let p: Vec<i32> = lib.all_borrowings(&paged).iter().map(|r| r.borrow_date).collect();
    assert_eq!(p, vec![120]);
}

#[test]
fn dated_by_clock() {
    let mut lib = Library::new();
    let b = lib.create_book(&book("Emma", "Austen", None)).unwrap();
    let m = lib.create_member(&member("Ada", "Lovelace")).unwrap();
    assert_eq!(lib.borrow_today(b, m), Ok(1));
    let day = lib.borrowings()[0].borrow_date;
    // 1 January 2020 and 1 January 2200, counted from 1 January of year 1
    assert!(day > 737425 && day < 803169);
    assert_eq!(lib.return_today(b), Ok(()));
    assert!(lib.borrowings()[0].return_date.unwrap() >= day);
    assert_eq!(lib.return_today(b), Err(LibraryError::NotBorrowed));
}

#[test]
fn delete_of_closed_row_still_resets_book() {
    let mut lib = Library::new();
    let b = lib.create_book(&book("Emma", "Austen", None)).unwrap();
    let m1 = lib.create_member(&member("Ada", "Lovelace")).unwrap();
    let m2 = lib.create_member(&member("Alan", "Turing")).unwrap();
    let first = lib.borrow(b, m1, 1).unwrap();
    lib.return_book(b, 2).unwrap();
    lib.borrow(b, m2, 3).unwrap();
    assert_eq!(lib.delete_borrowing(first), Ok(()));
    // the correction marks the book available although a loan of it is open
    assert_eq!(lib.get_book(b).unwrap().status, Status::Available);
    assert_eq!(open_rows(&lib, b), 1);
}

#[test]
fn loans_of_one_day_keep_stored_order() {
    let mut lib = Library::new();
    let a = lib.create_book(&book("Dune", "Herbert", None)).unwrap();
    let b = lib.create_book(&book("Emma", "Austen", None)).unwrap();
    let c = lib.create_book(&book("Anathem", "Stephenson", None)).unwrap();
    let m = lib.create_member(&member("Ada", "Lovelace")).unwrap();
    lib.borrow(b, m, 50).unwrap();
    lib.borrow(a, m, 40).unwrap();
    lib.borrow(c, m, 50).unwrap();
    let up: Vec<i32> = lib.borrows_by_member(m, &all_params()).iter().map(|r| r.id).collect();
    assert_eq!(up, vec![a, b, c]);
    let down = BorrowParams { order: Some(Order::DESC), ..all_params() };
    let ids: Vec<i32> = lib.all_borrowings(&down).iter().map(|r| r.id).collect();
    assert_eq!(ids, vec![b, c, a]);
    let with_all = BorrowParams { status: Some(Status::All), order: Some(Order::DESC), ..all_params() };
    let again: Vec<i32> = lib.all_borrowings(&with_all).iter().map(|r| r.id).collect();
    assert_eq!(again, ids);
}
