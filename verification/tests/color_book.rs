use acadrust::color_book::{join_color_book_name, split_color_book_name};

#[test]
fn split_book_and_color() {
    assert_eq!(
        split_color_book_name("PANTONE+ Solid Coated$PANTONE 123 C"),
        (Some("PANTONE+ Solid Coated".to_string()), Some("PANTONE 123 C".to_string()))
    );
    assert_eq!(split_color_book_name("RAL 1000"), (None, Some("RAL 1000".to_string())));
    assert_eq!(split_color_book_name("BOOK$"), (Some("BOOK".to_string()), None));
    assert_eq!(split_color_book_name("$COLOR"), (None, Some("COLOR".to_string())));
    assert_eq!(split_color_book_name(""), (None, None));
    assert_eq!(
        split_color_book_name("A$B$C"),
        (Some("A".to_string()), Some("B$C".to_string()))
    );
}

#[test]
fn join_book_and_color() {
    assert_eq!(join_color_book_name(Some("BOOK"), Some("RED")), Some("BOOK$RED".to_string()));
    assert_eq!(join_color_book_name(Some("BOOK"), None), Some("BOOK$".to_string()));
    assert_eq!(join_color_book_name(Some("BOOK"), Some("")), Some("BOOK$".to_string()));
    assert_eq!(join_color_book_name(None, Some("RED")), Some("RED".to_string()));
    assert_eq!(join_color_book_name(Some(""), Some("RED")), Some("RED".to_string()));
    assert_eq!(join_color_book_name(None, None), None);
    assert_eq!(join_color_book_name(Some(""), Some("")), None);
}

#[test]
fn split_of_join_gives_back_the_names() {
    let joined = join_color_book_name(Some("DIC COLOR GUIDE(R)"), Some("DIC 1")).unwrap();
    assert_eq!(
        split_color_book_name(&joined),
        (Some("DIC COLOR GUIDE(R)".to_string()), Some("DIC 1".to_string()))
    );
    let (book, color) = split_color_book_name("RAL$RAL 9005");
    assert_eq!(
        join_color_book_name(book.as_deref(), color.as_deref()),
        Some("RAL$RAL 9005".to_string())
    );
}
