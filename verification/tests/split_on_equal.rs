use search::options::parser::split_on_equal;

fn split(input: &'static str) -> Option<(&'static str, &'static str)> {
    split_on_equal(input.as_bytes()).map(|(before, after)| {
        (std::str::from_utf8(before).unwrap(), std::str::from_utf8(after).unwrap())
    })
}

#[test]
fn split_empty() {
    assert_eq!(split(""), None);
}

#[test]
fn split_letter() {
    assert_eq!(split("a"), None);
}

#[test]
fn split_no_after() {
    assert_eq!(split("aaa="), None);
}

#[test]
fn split_no_before() {
    assert_eq!(split("=aaa"), None);
}

#[test]
fn split_equal() {
    assert_eq!(split("aaa=bbb"), Some(("aaa", "bbb")));
}

#[test]
fn split_flag() {
    assert_eq!(split("--name=filename"), Some(("--name", "filename")));
}

#[test]
fn split_many_equals() {
    assert_eq!(split("one=two=three"), Some(("one", "two=three")));
}

#[test]
fn split_only_equal() {
    assert_eq!(split("="), None);
}

#[test]
fn split_one_byte_each_side() {
    assert_eq!(split("a=b"), Some(("a", "b")));
}
