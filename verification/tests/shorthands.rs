use sudoku::status_bar::shorthands::list::List;
use sudoku::status_bar::shorthands::Shorthand;

fn build(rules: &[(&str, &str)]) -> Option<List> {
    let mut list = Some(List::default());
    for (pattern, format) in rules {
        list = list.and_then(|x| x.add(pattern, format));
    }
    list
}

#[test]
fn test_valid_regex_and_format() {
    let _ = build(&[
        (r"f([\.]?)(\d)", "$1$2"),
        (r"pm(\d)", "$1"),
        (r"test(\d+)", "$1"),
        (r"abc(def)", "$1"),
        (r"xyz", "$0"),
    ])
    .unwrap();
}

#[test]
fn test_invalid_regex_formatting() {
    assert!(build(&[
        (r"invalid[", "$1$2"),
        (r"invalid*", "$1$2"),
        (r"invalid(", "$1$2"),
        (r"invalid{", "$1$2"),
        (r"invalid^", "$1$2"),
    ])
    .is_none())
}

#[test]
fn test_invalid_format_string() {
    assert!(build(&[
        (r"f([\.]?)(\d)", "$9$2"),
        (r"pm(\d)", "$1$3"),
        (r"test(\d+)", "$1$2$3"),
        (r"abc(def)", "$1$2"),
        (r"xyz", "$2"),
    ])
    .is_none())
}

#[test]
fn test_invalid_regex_and_format_string() {
    assert!(build(&[
        (r"invalid[", "$3$2"),
        (r"invalid*", "$1$2"),
        (r"invalid(", "$1$2"),
        (r"invalid{", "$1$2"),
        (r"invalid^", "$1$2"),
    ])
    .is_none())
}

#[test]
fn test_invalid_capture_group_reference() {
    assert!(build(&[
        (r"f([\.]?)(\d)", "$3$2"),
        (r"pm(\d)", "$1$3"),
        (r"test(\d+)", "$1$2$3"),
        (r"abc(def)", "$1$2"),
        (r"xyz", "$2"),
    ])
    .is_none())
}

#[test]
fn shorthand_t1() {
    let sh = Shorthand::try_new(r"f([\.]?)(\d)", "$1$2").unwrap();
    assert_eq!(".6", sh.apply_to_string("f.6").unwrap());
    assert_eq!("6", sh.apply_to_string("f6").unwrap());
}

#[test]
fn shorthand_no_match_yields_nothing() {
    let sh = Shorthand::try_new(r"pm(\d)", "$1").unwrap();
    assert!(sh.apply_to_string("xyz").is_none());
    assert_eq!("7", sh.apply_to_string("pm7").unwrap());
}

#[test]
fn shorthand_reads_single_digit_references() {
    let sh = Shorthand::try_new(r"(a)(b)", "$12").unwrap();
    assert_eq!("a2", sh.apply_to_string("ab").unwrap());
}

#[test]
fn list_first_match_wins() {
    let list = build(&[(r"^a", "first"), (r"a", "second")]).unwrap();
    assert_eq!("first", list.apply_to_string("abc").unwrap());
    assert_eq!("second", list.apply_to_string("xa").unwrap());
    assert!(list.apply_to_string("zzz").is_none());
}
