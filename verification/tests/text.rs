use search::options::parser::{Arg, Flag, TakesValue};

#[test]
fn flag_as_written() {
    assert_eq!(Flag::Short(b'l').to_text(), "-l");
    assert_eq!(Flag::Long("long").to_text(), "--long");
    assert_eq!(Flag::Long("").to_text(), "--");
    assert_eq!(Flag::Short(0xe9).to_text(), "-\u{e9}");
}

#[test]
fn arg_as_shown() {
    let with_short = Arg { short: Some(b'n'), long: "name", takes_value: TakesValue::Necessary(None) };
    assert_eq!(with_short.to_text(), "--name (-n)");
    let without = Arg { short: None, long: "include-dirs", takes_value: TakesValue::Forbidden };
    assert_eq!(without.to_text(), "--include-dirs");
}
