use tl_wire::{Category, Definition, ParseError, TLIterator};

#[test]
fn parse_bad_separator() {
    let mut it = TLIterator::new("---foo---");
    assert_eq!(it.next(), Some(Err(ParseError::UnknownSeparator)));
    assert_eq!(it.next(), None);
}

#[test]
fn parse_file() {
    let mut it = TLIterator::new(
        "
            // leading; comment
            first#1 = t; // inline comment
            second and bad;
            third#3 = t;
            // trailing comment
        ",
    );

    assert_eq!(it.next().unwrap().unwrap().id, 1);
    assert!(it.next().unwrap().is_err());
    assert_eq!(it.next().unwrap().unwrap().id, 3);
    assert_eq!(it.next(), None);
}

#[test]
fn empty_document_ends_at_once() {
    let mut it = TLIterator::new("");
    assert_eq!(it.next(), None);
    assert_eq!(it.next(), None);
}

#[test]
fn error_does_not_hide_following_statement() {
    let mut it = TLIterator::new("first#1 = t; second and bad; third#3 = t;");
    let first = it.next().unwrap().unwrap();
    assert_eq!(first.id, 1);
    assert_eq!(first.name, "first");
    assert_eq!(first.ty, "t");
    assert_eq!(first.category, Category::Types);
    assert_eq!(it.next(), Some(Err(ParseError::MissingType)));
    assert_eq!(it.next().unwrap().unwrap().id, 3);
    assert_eq!(it.next(), None);
}

#[test]
fn unknown_marker_then_end() {
    let mut it = TLIterator::new("---foo---;");
    assert_eq!(it.next(), Some(Err(ParseError::UnknownSeparator)));
    assert_eq!(it.next(), None);
}

#[test]
fn unknown_marker_does_not_stop_tokenizing() {
    let mut it = TLIterator::new("---foo--- a#1 = t; b#2 = t;");
    assert_eq!(it.next(), Some(Err(ParseError::UnknownSeparator)));
    let b = it.next().unwrap().unwrap();
    assert_eq!(b.id, 2);
    assert_eq!(b.category, Category::Types);
    assert_eq!(it.next(), None);
}

#[test]
fn markers_switch_sections() {
    let mut it = TLIterator::new(
        "a#1 = t;\n---functions---\nb#2 = t;\nc#3 = t;\n---types---\nd#4 = t;\n",
    );
    let expected = [
        (1, Category::Types),
        (2, Category::Functions),
        (3, Category::Functions),
        (4, Category::Types),
    ];
    for (id, category) in expected {
        let d = it.next().unwrap().unwrap();
        assert_eq!(d.id, id);
        assert_eq!(d.category, category);
    }
    assert_eq!(it.next(), None);
}

#[test]
fn lone_markers_yield_nothing() {
    let mut it = TLIterator::new("---functions---; ; ---types---; ---functions---; f#a = t;");
    let f = it.next().unwrap().unwrap();
    assert_eq!(f.id, 10);
    assert_eq!(f.category, Category::Functions);
    assert_eq!(it.next(), None);
}

#[test]
fn marker_alone_at_end_yields_nothing() {
    let mut it = TLIterator::new("---functions---");
    assert_eq!(it.next(), None);
}

#[test]
fn blank_document_yields_nothing() {
    for doc in ["   \n\t  ", ";;;", " ; \n ;\t; ", "\u{3000};\u{a0}"] {
        let mut it = TLIterator::new(doc);
        assert_eq!(it.next(), None);
    }
}

#[test]
fn comments_are_removed() {
    let mut it = TLIterator::new("// a#1 = t;\nb#2 = t; // c#3 = t;\n");
    assert_eq!(it.next().unwrap().unwrap().id, 2);
    assert_eq!(it.next(), None);
}

#[test]
fn definition_fields() {
    let d = Definition::parse("  user#deadBEEF id:long name:string = User ", Category::Functions)
        .unwrap();
    assert_eq!(d.name, "user");
    assert_eq!(d.id, 0xdeadbeef);
    assert_eq!(d.params, "id:long name:string");
    assert_eq!(d.ty, "User");
    assert_eq!(d.category, Category::Functions);
}

#[test]
fn definition_errors() {
    assert_eq!(Definition::parse("", Category::Types), Err(ParseError::MissingType));
    assert_eq!(Definition::parse("a#1 = ", Category::Types), Err(ParseError::MissingType));
    assert_eq!(Definition::parse("#1 = t", Category::Types), Err(ParseError::MissingName));
    assert_eq!(Definition::parse("a = t", Category::Types), Err(ParseError::MissingId));
    assert_eq!(Definition::parse("a# = t", Category::Types), Err(ParseError::InvalidId));
    assert_eq!(Definition::parse("a#12g = t", Category::Types), Err(ParseError::InvalidId));
    assert_eq!(Definition::parse("a#123456789 = t", Category::Types), Err(ParseError::InvalidId));
}

#[test]
fn largest_id() {
    let d = Definition::parse("a#ffffffff = t", Category::Types).unwrap();
    assert_eq!(d.id, u32::MAX);
}
