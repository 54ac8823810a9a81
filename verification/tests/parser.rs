use search::options::errors::ParseError;
use search::options::parser::{Arg, Args, Flag, MatchedFlags, Matches, Strictness, TakesValue, Values};

const TEST_ARGS_VALUE: Values = &["test"];

fn test_args() -> Args {
    Args(vec![
        Arg { short: Some(b'l'), long: "long", takes_value: TakesValue::Forbidden },
        Arg { short: Some(b's'), long: "short", takes_value: TakesValue::Forbidden },
        Arg { short: Some(b'c'), long: "count", takes_value: TakesValue::Necessary(None) },
        Arg { short: Some(b't'), long: "type", takes_value: TakesValue::Necessary(Some(TEST_ARGS_VALUE)) },
    ])
}

fn wide_args() -> Args {
    Args(vec![
        Arg { short: Some(b'a'), long: "all", takes_value: TakesValue::Forbidden },
        Arg { short: Some(b'b'), long: "brief", takes_value: TakesValue::Forbidden },
        Arg { short: Some(b'x'), long: "extra", takes_value: TakesValue::Optional(None) },
        Arg { short: Some(b'y'), long: "yield", takes_value: TakesValue::Necessary(None) },
        Arg { short: None, long: "plain", takes_value: TakesValue::Forbidden },
    ])
}

fn check_with(
    registry: Args,
    inputs: &[&'static str],
    flags: Vec<(Flag, Option<&'static str>)>,
    frees: &[&'static str],
) {
    let inputs: Vec<&[u8]> = inputs.iter().map(|s| s.as_bytes()).collect();
    let frees: Vec<&[u8]> = frees.iter().map(|s| s.as_bytes()).collect();
    let flags: Vec<(Flag, Option<&[u8]>)> =
        flags.into_iter().map(|(flag, value)| (flag, value.map(|v| v.as_bytes()))).collect();
    let strictness = Strictness::UseLastArgument;
    let got = registry.parse(&inputs, strictness);
    let expected = Ok(Matches { flags: MatchedFlags::new(flags, strictness), frees });
    assert_eq!(got, expected);
}

fn check_parse(inputs: &[&'static str], flags: Vec<(Flag, Option<&'static str>)>, frees: &[&'static str]) {
    check_with(test_args(), inputs, flags, frees);
}

fn check_wide(inputs: &[&'static str], flags: Vec<(Flag, Option<&'static str>)>, frees: &[&'static str]) {
    check_with(wide_args(), inputs, flags, frees);
}

fn check_error(inputs: &[&'static str], error: ParseError) {
    let inputs: Vec<&[u8]> = inputs.iter().map(|s| s.as_bytes()).collect();
    let got = test_args().parse(&inputs, Strictness::UseLastArgument);
    assert_eq!(got, Err(error));
}

fn check_wide_error(inputs: &[&'static str], error: ParseError) {
    let inputs: Vec<&[u8]> = inputs.iter().map(|s| s.as_bytes()).collect();
    let got = wide_args().parse(&inputs, Strictness::UseLastArgument);
    assert_eq!(got, Err(error));
}

#[test]
fn empty() {
    check_parse(&[], vec![], &[]);
}

#[test]
fn only_frees() {
    check_parse(&["search", "not-a-flag"], vec![], &["search", "not-a-flag"]);
}

#[test]
fn one_dash() {
    check_parse(&["-"], vec![], &["-"]);
}

#[test]
fn two_dash() {
    check_parse(&["--"], vec![], &[]);
}

#[test]
fn two_dashed_value() {
    check_parse(&["--", "filename"], vec![], &["filename"]);
}

#[test]
fn two_dashed_arg() {
    check_parse(&["--", "-s", "--long"], vec![], &["-s", "--long"]);
}

#[test]
fn long() {
    check_parse(&["--long"], vec![(Flag::Long("long"), None)], &[]);
}

#[test]
fn long_then() {
    check_parse(&["--long", "4"], vec![(Flag::Long("long"), None)], &["4"]);
}

#[test]
fn long_two() {
    check_parse(&["--long", "--short"], vec![(Flag::Long("long"), None), (Flag::Long("short"), None)], &[]);
}

#[test]
fn arg_equal_long() {
    check_parse(&["--count=4"], vec![(Flag::Long("count"), Some("4"))], &[]);
}

#[test]
fn arg_then_long() {
    check_parse(&["--count", "4"], vec![(Flag::Long("count"), Some("4"))], &[]);
}

#[test]
fn arg_equal_s_long() {
    check_parse(&["--type=anything"], vec![(Flag::Long("type"), Some("anything"))], &[]);
}

#[test]
fn arg_then_s_long() {
    check_parse(&["--type", "anything"], vec![(Flag::Long("type"), Some("anything"))], &[]);
}

#[test]
fn short() {
    check_parse(&["-l"], vec![(Flag::Short(b'l'), None)], &[]);
}

#[test]
fn short_then() {
    check_parse(&["-l", "4"], vec![(Flag::Short(b'l'), None)], &["4"]);
}

#[test]
fn short_two() {
    check_parse(&["-l", "-s"], vec![(Flag::Short(b'l'), None), (Flag::Short(b's'), None)], &[]);
}

#[test]
fn short_fusion() {
    check_parse(&["-ls"], vec![(Flag::Short(b'l'), None), (Flag::Short(b's'), None)], &[]);
}

#[test]
fn mixed() {
    check_parse(&["--long", "-s"], vec![(Flag::Long("long"), None), (Flag::Short(b's'), None)], &[]);
}

#[test]
fn mixed_rev() {
    check_parse(&["-s", "--long"], vec![(Flag::Short(b's'), None), (Flag::Long("long"), None)], &[]);
}

#[test]
fn arg_equal_short() {
    check_parse(&["-c=4"], vec![(Flag::Short(b'c'), Some("4"))], &[]);
}

#[test]
fn arg_then_short() {
    check_parse(&["-c", "4"], vec![(Flag::Short(b'c'), Some("4"))], &[]);
}

#[test]
fn arg_equal_s_short() {
    check_parse(&["-t=anything"], vec![(Flag::Short(b't'), Some("anything"))], &[]);
}

#[test]
fn arg_then_s_short() {
    check_parse(&["-t", "anything"], vec![(Flag::Short(b't'), Some("anything"))], &[]);
}

#[test]
fn arg_together_s_short() {
    check_parse(&["-tanything"], vec![(Flag::Short(b't'), Some("anything"))], &[]);
}

#[test]
fn forbidden_value_long() {
    check_error(&["--long=4"], ParseError::ForbiddenValue { flag: Flag::Long("long") });
}

#[test]
fn needed_value_long() {
    check_error(&["--count"], ParseError::NeedsValue { flag: Flag::Long("count"), values: None });
}

#[test]
fn needed_value_s_long() {
    check_error(&["--type"], ParseError::NeedsValue { flag: Flag::Long("type"), values: Some(TEST_ARGS_VALUE) });
}

#[test]
fn forbidden_value_short() {
    check_error(&["-s=4"], ParseError::ForbiddenValue { flag: Flag::Short(b's') });
}

#[test]
fn needed_value_short() {
    check_error(&["-c"], ParseError::NeedsValue { flag: Flag::Short(b'c'), values: None });
}

#[test]
fn needed_value_s_short() {
    check_error(&["-t"], ParseError::NeedsValue { flag: Flag::Short(b't'), values: Some(TEST_ARGS_VALUE) });
}

#[test]
fn unknown_long() {
    check_error(&["--unknown"], ParseError::UnknownArgument { name: b"unknown".to_vec() });
}

#[test]
fn unknown_long_equal() {
    check_error(&["--unknown=anything"], ParseError::UnknownArgument { name: b"unknown".to_vec() });
}

#[test]
fn unknown_short() {
    check_error(&["-u"], ParseError::UnknownShortArgument { byte: b'u' });
}

#[test]
fn unknown_short_together() {
    check_error(&["-ua"], ParseError::UnknownShortArgument { byte: b'u' });
}

#[test]
fn unknown_short_2nd() {
    check_error(&["-lu"], ParseError::UnknownShortArgument { byte: b'u' });
}

#[test]
fn unknown_short_equal() {
    check_error(&["-u=anything"], ParseError::UnknownShortArgument { byte: b'u' });
}

#[test]
fn unknown_short_equal_2nd() {
    check_error(&["-lu=anything"], ParseError::UnknownShortArgument { byte: b'u' });
}

#[test]
fn optional_takes_rest_of_cluster() {
    check_wide(&["-xabc"], vec![(Flag::Short(b'x'), Some("abc"))], &[]);
}

#[test]
fn first_value_taker_ends_cluster() {
    check_wide(
        &["-abxyfgh"],
        vec![(Flag::Short(b'a'), None), (Flag::Short(b'b'), None), (Flag::Short(b'x'), Some("yfgh"))],
        &[],
    );
}

#[test]
fn last_letter_takes_next_token() {
    check_wide(
        &["-abx", "def", "free"],
        vec![(Flag::Short(b'a'), None), (Flag::Short(b'b'), None), (Flag::Short(b'x'), Some("def"))],
        &["free"],
    );
}

#[test]
fn optional_last_without_next_has_no_value() {
    check_wide(&["-ax"], vec![(Flag::Short(b'a'), None), (Flag::Short(b'x'), None)], &[]);
}

#[test]
fn optional_before_equals_has_no_value() {
    check_wide(
        &["-axy=v"],
        vec![(Flag::Short(b'a'), None), (Flag::Short(b'x'), None), (Flag::Short(b'y'), Some("v"))],
        &[],
    );
}

#[test]
fn necessary_before_equals_needs_value() {
    check_wide_error(&["-yx=v"], ParseError::NeedsValue { flag: Flag::Short(b'y'), values: None });
}

#[test]
fn forbidden_before_equals_is_refused() {
    check_wide_error(&["-xa=v"], ParseError::ForbiddenValue { flag: Flag::Short(b'a') });
}

#[test]
fn equals_without_value_is_no_split_short() {
    check_wide(&["-y="], vec![(Flag::Short(b'y'), Some("="))], &[]);
}

#[test]
fn equals_without_value_is_no_split_forbidden() {
    check_wide_error(&["-a="], ParseError::UnknownShortArgument { byte: b'=' });
}

#[test]
fn equals_without_value_is_no_split_long() {
    check_error(&["--count="], ParseError::UnknownArgument { name: b"count=".to_vec() });
}

#[test]
fn equals_without_name_is_no_split_long() {
    check_error(&["--=4"], ParseError::UnknownArgument { name: b"=4".to_vec() });
}

#[test]
fn optional_long_without_next_has_no_value() {
    check_wide(&["--extra"], vec![(Flag::Long("extra"), None)], &[]);
}

#[test]
fn optional_long_with_value_attached() {
    check_wide(&["--extra=1", "2"], vec![(Flag::Long("extra"), Some("1"))], &["2"]);
}

#[test]
fn optional_long_takes_separator_as_value() {
    check_wide_error(&["--extra", "--", "-q"], ParseError::UnknownShortArgument { byte: b'q' });
    check_wide(
        &["--extra", "--", "-a"],
        vec![(Flag::Long("extra"), Some("--")), (Flag::Short(b'a'), None)],
        &[],
    );
}

#[test]
fn necessary_long_takes_flag_like_value() {
    check_wide(&["--yield", "--plain"], vec![(Flag::Long("yield"), Some("--plain"))], &[]);
}

#[test]
fn long_value_keeps_later_equals() {
    check_wide(&["--yield=a=b"], vec![(Flag::Long("yield"), Some("a=b"))], &[]);
}

#[test]
fn short_necessary_takes_flag_like_value() {
    check_wide(&["-y", "-a"], vec![(Flag::Short(b'y'), Some("-a"))], &[]);
}

#[test]
fn repeated_flags_are_all_recorded() {
    check_wide(
        &["--plain", "free", "--plain"],
        vec![(Flag::Long("plain"), None), (Flag::Long("plain"), None)],
        &["free"],
    );
}

#[test]
fn separator_frees_everything_after_it() {
    check_wide(
        &["-a", "one", "--", "-b", "--", "--plain", "-"],
        vec![(Flag::Short(b'a'), None)],
        &["one", "-b", "--", "--plain", "-"],
    );
}

#[test]
fn failure_after_frees_is_still_a_failure() {
    check_wide_error(&["free", "--nope"], ParseError::UnknownArgument { name: b"nope".to_vec() });
}

#[test]
fn first_failure_wins() {
    check_wide_error(&["-q", "--yield"], ParseError::UnknownShortArgument { byte: b'q' });
    check_wide_error(&["--yield=1", "--nope", "-q"], ParseError::UnknownArgument { name: b"nope".to_vec() });
}

#[test]
fn long_flag_has_no_short_form() {
    check_wide_error(&["-p"], ParseError::UnknownShortArgument { byte: b'p' });
}

#[test]
fn empty_token_is_free() {
    check_wide(&["", "-a"], vec![(Flag::Short(b'a'), None)], &[""]);
}

#[test]
fn strictness_is_kept() {
    let tokens: Vec<&[u8]> = vec![b"--long"];
    let strict = test_args().parse(&tokens, Strictness::ForbidRedundant).unwrap();
    let last = test_args().parse(&tokens, Strictness::UseLastArgument).unwrap();
    assert_ne!(strict.flags, last.flags);
    assert_eq!(
        strict.flags,
        MatchedFlags::new(vec![(Flag::Long("long"), None)], Strictness::ForbidRedundant)
    );
}

#[test]
fn parsing_twice_gives_the_same() {
    let tokens: Vec<&[u8]> = vec![b"-ls", b"free", b"--count=4", b"-c", b"x"];
    let first = test_args().parse(&tokens, Strictness::UseLastArgument);
    let second = test_args().parse(&tokens, Strictness::UseLastArgument);
    assert!(first.is_ok());
    assert_eq!(first, second);
}

#[test]
fn lookup_finds_first_definition() {
    let registry = Args(vec![
        Arg { short: Some(b'a'), long: "first", takes_value: TakesValue::Forbidden },
        Arg { short: Some(b'a'), long: "second", takes_value: TakesValue::Forbidden },
        Arg { short: None, long: "second", takes_value: TakesValue::Optional(None) },
    ]);
    assert_eq!(registry.lookup_short(b'a').map(|arg| arg.long), Ok("first"));
    assert_eq!(registry.lookup_long(b"second").map(|arg| arg.short), Ok(Some(b'a')));
    assert_eq!(registry.lookup_short(b'z'), Err(ParseError::UnknownShortArgument { byte: b'z' }));
    assert_eq!(
        registry.lookup_long(b"third"),
        Err(ParseError::UnknownArgument { name: b"third".to_vec() })
    );
    assert_eq!(
        registry.lookup_long(b"secon"),
        Err(ParseError::UnknownArgument { name: b"secon".to_vec() })
    );
}

#[test]
fn flag_matches_its_definition() {
    let arg = Arg { short: Some(b'c'), long: "count", takes_value: TakesValue::Necessary(None) };
    let shortless = Arg { short: None, long: "count", takes_value: TakesValue::Necessary(None) };
    assert!(Flag::Short(b'c').matches(&arg));
    assert!(!Flag::Short(b'd').matches(&arg));
    assert!(!Flag::Short(b'c').matches(&shortless));
    assert!(Flag::Long("count").matches(&arg));
    assert!(Flag::Long("count").matches(&shortless));
    assert!(!Flag::Long("coun").matches(&arg));
    assert!(!Flag::Long("counts").matches(&arg));
}
