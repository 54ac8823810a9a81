use search::options::errors::OptionsError;
use search::options::parser::{Arg, Flag, MatchedFlags, Strictness, TakesValue};

fn count_arg() -> Arg {
    Arg { short: Some(b'c'), long: "count", takes_value: TakesValue::Optional(None) }
}

fn long_arg() -> Arg {
    Arg { short: Some(b'l'), long: "long", takes_value: TakesValue::Forbidden }
}

fn held(strictness: Strictness) -> MatchedFlags<'static> {
    MatchedFlags::new(
        vec![
            (Flag::Short(b'c'), Some(b"1".as_slice())),
            (Flag::Long("long"), None),
            (Flag::Long("count"), None),
            (Flag::Long("count"), Some(b"2".as_slice())),
            (Flag::Short(b'c'), None),
        ],
        strictness,
    )
}

#[test]
fn has_last_argument() {
    let flags = held(Strictness::UseLastArgument);
    assert_eq!(flags.has(&count_arg()), Ok(true));
    assert_eq!(flags.has(&long_arg()), Ok(true));
    let other = Arg { short: Some(b'o'), long: "other", takes_value: TakesValue::Forbidden };
    assert_eq!(flags.has(&other), Ok(false));
}

#[test]
fn has_strict() {
    let flags = held(Strictness::ForbidRedundant);
    assert_eq!(
        flags.has(&count_arg()),
        Err(OptionsError::Duplicate(Flag::Short(b'c'), Flag::Long("count")))
    );
    assert_eq!(flags.has(&long_arg()), Ok(true));
    let other = Arg { short: Some(b'o'), long: "other", takes_value: TakesValue::Forbidden };
    assert_eq!(flags.has(&other), Ok(false));
}

#[test]
fn get_last_argument_returns_later_value() {
    let flags = held(Strictness::UseLastArgument);
    assert_eq!(flags.get(&count_arg()), Ok(Some(b"2".as_slice())));
    assert_eq!(flags.get(&long_arg()), Ok(None));
}

#[test]
fn get_strict_names_first_two_with_values() {
    let flags = held(Strictness::ForbidRedundant);
    assert_eq!(
        flags.get(&count_arg()),
        Err(OptionsError::Duplicate(Flag::Short(b'c'), Flag::Long("count")))
    );
    assert_eq!(flags.get(&long_arg()), Ok(None));
}

#[test]
fn get_does_not_see_occurrences_without_value() {
    let flags = MatchedFlags::new(
        vec![
            (Flag::Short(b'c'), None),
            (Flag::Short(b'c'), Some(b"7".as_slice())),
            (Flag::Short(b'c'), None),
        ],
        Strictness::ForbidRedundant,
    );
    assert_eq!(flags.get(&count_arg()), Ok(Some(b"7".as_slice())));
    assert_eq!(
        flags.has(&count_arg()),
        Err(OptionsError::Duplicate(Flag::Short(b'c'), Flag::Short(b'c')))
    );
    let last = MatchedFlags::new(
        vec![(Flag::Short(b'c'), Some(b"7".as_slice())), (Flag::Short(b'c'), None)],
        Strictness::UseLastArgument,
    );
    assert_eq!(last.get(&count_arg()), Ok(Some(b"7".as_slice())));
}

#[test]
fn two_occurrences_without_value_are_no_duplicate_for_get() {
    let flags = MatchedFlags::new(
        vec![(Flag::Short(b'c'), None), (Flag::Short(b'c'), None)],
        Strictness::ForbidRedundant,
    );
    assert_eq!(flags.get(&count_arg()), Ok(None));
}

#[test]
fn count_is_the_same_in_both_modes() {
    assert_eq!(held(Strictness::UseLastArgument).count(&count_arg()), 4);
    assert_eq!(held(Strictness::ForbidRedundant).count(&count_arg()), 4);
    assert_eq!(held(Strictness::ForbidRedundant).count(&long_arg()), 1);
    let other = Arg { short: Some(b'o'), long: "other", takes_value: TakesValue::Forbidden };
    assert_eq!(held(Strictness::ForbidRedundant).count(&other), 0);
}

#[test]
fn has_where_strict() {
    let flags = held(Strictness::ForbidRedundant);
    assert_eq!(flags.has_where(|flag| matches!(flag, Flag::Long("long"))), Ok(Some(&Flag::Long("long"))));
    assert_eq!(
        flags.has_where(|flag| matches!(flag, Flag::Long(_))),
        Err(OptionsError::Duplicate(Flag::Long("long"), Flag::Long("count")))
    );
    assert_eq!(flags.has_where(|_| false), Ok(None));
}

#[test]
fn has_where_last_argument() {
    let flags = held(Strictness::UseLastArgument);
    assert_eq!(flags.has_where(|flag| matches!(flag, Flag::Long(_))), Ok(Some(&Flag::Long("count"))));
    assert_eq!(flags.has_where(|_| true), Ok(Some(&Flag::Short(b'c'))));
    assert_eq!(flags.has_where(|_| false), Ok(None));
}

#[test]
fn has_where_any_ignores_strictness() {
    let flags = held(Strictness::ForbidRedundant);
    assert_eq!(flags.has_where_any(|flag| matches!(flag, Flag::Long(_))), Some(&Flag::Long("count")));
    assert_eq!(flags.has_where_any(|flag| matches!(flag, Flag::Short(b'z'))), None);
}

#[test]
fn get_where_strict() {
    let flags = held(Strictness::ForbidRedundant);
    assert_eq!(flags.get_where(|flag| matches!(flag, Flag::Long(_))), Ok(Some(b"2".as_slice())));
    assert_eq!(
        flags.get_where(|_| true),
        Err(OptionsError::Duplicate(Flag::Short(b'c'), Flag::Long("count")))
    );
    assert_eq!(flags.get_where(|flag| matches!(flag, Flag::Long("long"))), Ok(None));
}

#[test]
fn get_where_last_argument() {
    let flags = held(Strictness::UseLastArgument);
    assert_eq!(flags.get_where(|_| true), Ok(Some(b"2".as_slice())));
    assert_eq!(flags.get_where(|flag| matches!(flag, Flag::Short(_))), Ok(Some(b"1".as_slice())));
    assert_eq!(flags.get_where(|_| false), Ok(None));
}

#[test]
fn queries_on_nothing() {
    let flags = MatchedFlags::new(Vec::new(), Strictness::ForbidRedundant);
    assert_eq!(flags.has(&count_arg()), Ok(false));
    assert_eq!(flags.get(&count_arg()), Ok(None));
    assert_eq!(flags.count(&count_arg()), 0);
}
