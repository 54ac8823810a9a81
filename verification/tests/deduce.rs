use search::fs::fields::Type;
use search::fs::file::File;
use search::fs::filter::{FileFilter, NameFilter, SizeFilter};
use search::options::errors::{OptionsError, ParseError};
use search::options::flags;
use search::options::help::{HelpString, USAGE};
use search::options::parser::{Flag, MatchedFlags, Strictness};
use search::options::{Options, OptionsResult};

fn file(name: &str, kind: Type, size: u64) -> File {
    File { name: String::from(name), kind, size }
}

fn held(flags: Vec<(Flag, Option<&'static [u8]>)>) -> MatchedFlags<'static> {
    MatchedFlags::new(flags, Strictness::UseLastArgument)
}

#[test]
fn no_flags_no_filters() {
    let filter = FileFilter::deduce(&held(vec![])).unwrap();
    assert!(!filter.only_dirs);
    assert!(!filter.include_dirs);
    assert_eq!(filter.size_filter, SizeFilter::Unfiltered);
    assert!(matches!(filter.name_filter, NameFilter::Unfiltered));
}

#[test]
fn name_filter_compiles_the_value() {
    let matches = held(vec![(Flag::Short(b'n'), Some(b"^a.*\\.rs$".as_slice()))]);
    let filter = NameFilter::deduce(&matches).unwrap();
    match &filter {
        NameFilter::Regex(regex) => assert_eq!(regex.as_str(), "^a.*\\.rs$"),
        NameFilter::Unfiltered => panic!("no filter"),
    }
    assert!(filter.match_file(&file("args.rs", Type::File, 1)));
    assert!(!filter.match_file(&file("bargs.rs", Type::File, 1)));
    assert!(!filter.match_file(&file("^a.*\\.rs$", Type::File, 1)));
}

#[test]
fn name_filter_matches_anywhere() {
    let matches = held(vec![(Flag::Long("name"), Some(b"oo".as_slice()))]);
    let filter = NameFilter::deduce(&matches).unwrap();
    assert!(filter.match_file(&file("foo.txt", Type::File, 1)));
    assert!(!filter.match_file(&file("bar.txt", Type::File, 1)));
}

#[test]
fn name_filter_absent() {
    let filter = NameFilter::deduce(&held(vec![(Flag::Short(b'd'), None)])).unwrap();
    assert!(matches!(filter, NameFilter::Unfiltered));
    assert!(filter.match_file(&file("anything", Type::File, 1)));
}

#[test]
fn name_filter_bad_pattern() {
    let matches = held(vec![(Flag::Short(b'n'), Some(b"foo(bar".as_slice()))]);
    match NameFilter::deduce(&matches) {
        Err(e) => assert_eq!(e, OptionsError::BadArgument(flags::name(), b"foo(bar".to_vec())),
        Ok(_) => panic!("accepted"),
    }
}

#[test]
fn name_filter_not_utf8() {
    let matches = held(vec![(Flag::Short(b'n'), Some([b'a', 0xff, b'b'].as_slice()))]);
    match NameFilter::deduce(&matches) {
        Err(e) => assert_eq!(e, OptionsError::BadArgument(flags::name(), vec![b'a', 0xff, b'b'])),
        Ok(_) => panic!("accepted"),
    }
}

#[test]
fn name_filter_non_ascii_pattern() {
    let matches = held(vec![(Flag::Short(b'n'), Some("é+".as_bytes()))]);
    let filter = NameFilter::deduce(&matches).unwrap();
    assert!(filter.match_file(&file("café", Type::File, 1)));
    assert!(!filter.match_file(&file("cafe", Type::File, 1)));
}

#[test]
fn name_filter_last_value_wins() {
    let matches = held(vec![
        (Flag::Short(b'n'), Some(b"first".as_slice())),
        (Flag::Long("name"), Some(b"second".as_slice())),
    ]);
    match NameFilter::deduce(&matches).unwrap() {
        NameFilter::Regex(regex) => assert_eq!(regex.as_str(), "second"),
        NameFilter::Unfiltered => panic!("no filter"),
    }
}

#[test]
fn name_filter_strict_duplicate() {
    let matches = MatchedFlags::new(
        vec![
            (Flag::Short(b'n'), Some(b"first".as_slice())),
            (Flag::Long("name"), Some(b"second".as_slice())),
        ],
        Strictness::ForbidRedundant,
    );
    match NameFilter::deduce(&matches) {
        Err(e) => assert_eq!(e, OptionsError::Duplicate(Flag::Short(b'n'), Flag::Long("name"))),
        Ok(_) => panic!("accepted"),
    }
}

#[test]
fn from_compiled_keeps_the_regex_or_blames_the_value() {
    match NameFilter::from_compiled(b"raw", regex::Regex::new("a+")) {
        Ok(NameFilter::Regex(regex)) => assert_eq!(regex.as_str(), "a+"),
        _ => panic!("no regex"),
    }
    match NameFilter::from_compiled(b"raw", regex::Regex::new("(")) {
        Err(e) => assert_eq!(e, OptionsError::BadArgument(flags::name(), b"raw".to_vec())),
        Ok(_) => panic!("accepted"),
    }
}

#[test]
fn name_filter_from_regex() {
    let filter = NameFilter::from(regex::Regex::new("x").unwrap());
    assert!(matches!(filter, NameFilter::Regex(_)));
    let filter = NameFilter::from(Some(regex::Regex::new("x").unwrap()));
    assert!(matches!(filter, NameFilter::Regex(_)));
    let filter = NameFilter::from(None);
    assert!(matches!(filter, NameFilter::Unfiltered));
    assert!(matches!(NameFilter::default(), NameFilter::Unfiltered));
}

#[test]
fn size_filter_from_flag() {
    let matches = held(vec![(Flag::Short(b's'), Some(b"+1024k".as_slice()))]);
    assert_eq!(SizeFilter::deduce(&matches), Ok(SizeFilter::Superior(1_048_576)));
    let matches = held(vec![(Flag::Long("size"), Some(b"-=500c".as_slice()))]);
    assert_eq!(SizeFilter::deduce(&matches), Ok(SizeFilter::InferiorOrEqual(500)));
    assert_eq!(SizeFilter::deduce(&held(vec![])), Ok(SizeFilter::Unfiltered));
    let matches = held(vec![(Flag::Long("size"), None)]);
    assert_eq!(SizeFilter::deduce(&matches), Ok(SizeFilter::Unfiltered));
}

#[test]
fn size_filter_that_does_not_fit_is_refused() {
    let matches = held(vec![(Flag::Short(b's'), Some(b"+17179869184G".as_slice()))]);
    assert_eq!(
        SizeFilter::deduce(&matches),
        Err(OptionsError::BadArgument(flags::size(), b"+17179869184G".to_vec()))
    );
}

#[test]
fn both_directory_flags_conflict() {
    let matches = held(vec![(Flag::Short(b'd'), None), (Flag::Long("include-dirs"), None)]);
    match FileFilter::deduce(&matches) {
        Err(e) => assert_eq!(e, OptionsError::OptionsConflict(flags::only_dirs(), flags::include_dirs())),
        Ok(_) => panic!("accepted"),
    }
}

#[test]
fn conflict_whatever_else_is_given() {
    let matches = held(vec![
        (Flag::Long("include-dirs"), None),
        (Flag::Short(b'n'), Some(b"a".as_slice())),
        (Flag::Short(b's'), Some(b"+1".as_slice())),
        (Flag::Short(b'v'), None),
        (Flag::Long("only-dirs"), None),
    ]);
    match FileFilter::deduce(&matches) {
        Err(e) => assert_eq!(e, OptionsError::OptionsConflict(flags::only_dirs(), flags::include_dirs())),
        Ok(_) => panic!("accepted"),
    }
}

#[test]
fn conflict_in_strict_mode() {
    let matches = MatchedFlags::new(
        vec![(Flag::Short(b'd'), None), (Flag::Long("include-dirs"), None)],
        Strictness::ForbidRedundant,
    );
    match FileFilter::deduce(&matches) {
        Err(e) => assert_eq!(e, OptionsError::OptionsConflict(flags::only_dirs(), flags::include_dirs())),
        Ok(_) => panic!("accepted"),
    }
}

#[test]
fn bad_name_comes_before_conflict() {
    let matches = held(vec![
        (Flag::Short(b'd'), None),
        (Flag::Long("include-dirs"), None),
        (Flag::Short(b'n'), Some(b"(".as_slice())),
    ]);
    match FileFilter::deduce(&matches) {
        Err(e) => assert_eq!(e, OptionsError::BadArgument(flags::name(), b"(".to_vec())),
        Ok(_) => panic!("accepted"),
    }
}

#[test]
fn only_dirs_shows_directories_only() {
    let filter = FileFilter::deduce(&held(vec![(Flag::Long("only-dirs"), None)])).unwrap();
    assert!(filter.match_file(&file("src", Type::Directory, 0)));
    assert!(!filter.match_file(&file("src", Type::File, 0)));
    assert!(!filter.match_file(&file("src", Type::Socket, 0)));
}

#[test]
fn one_directory_flag_is_fine() {
    let filter = FileFilter::deduce(&held(vec![(Flag::Short(b'd'), None)])).unwrap();
    assert!(filter.only_dirs && !filter.include_dirs);
    let filter = FileFilter::deduce(&held(vec![(Flag::Long("include-dirs"), None)])).unwrap();
    assert!(!filter.only_dirs && filter.include_dirs);
}

#[test]
fn file_filter_matches() {
    let matches = held(vec![
        (Flag::Short(b'n'), Some(b"\\.rs$".as_slice())),
        (Flag::Short(b's'), Some(b"+=10".as_slice())),
    ]);
    let filter = FileFilter::deduce(&matches).unwrap();
    assert!(filter.match_file(&file("main.rs", Type::File, 10)));
    assert!(!filter.match_file(&file("main.rs", Type::File, 9)));
    assert!(!filter.match_file(&file("main.c", Type::File, 10)));
    assert!(!filter.match_file(&file("dir.rs", Type::Directory, 10)));
    assert!(filter.match_file(&file("link.rs", Type::Link, 10)));
}

#[test]
fn file_filter_directories() {
    let plain = FileFilter::default();
    assert!(plain.match_file(&file("a", Type::File, 0)));
    assert!(!plain.match_file(&file("a", Type::Directory, 0)));
    let with_dirs = FileFilter { include_dirs: true, ..FileFilter::default() };
    assert!(with_dirs.match_file(&file("a", Type::File, 0)));
    assert!(with_dirs.match_file(&file("a", Type::Directory, 0)));
    let only_dirs = FileFilter { only_dirs: true, ..FileFilter::default() };
    assert!(!only_dirs.match_file(&file("a", Type::File, 0)));
    assert!(only_dirs.match_file(&file("a", Type::Directory, 0)));
    assert!(!only_dirs.match_file(&file("a", Type::Link, 0)));
    let both = FileFilter { only_dirs: true, include_dirs: true, ..FileFilter::default() };
    assert!(!both.match_file(&file("a", Type::File, 0)));
    assert!(both.match_file(&file("a", Type::Directory, 0)));
}

#[test]
fn file_kinds() {
    assert!(Type::File.is_regular_file());
    assert!(!Type::Directory.is_regular_file());
    assert!(!Type::Link.is_regular_file());
    assert!(!Type::Special.is_regular_file());
    let f = file("a", Type::File, 12);
    assert!(f.is_file() && !f.is_directory());
    assert_eq!(f.get_size(), 12);
    let d = file("a", Type::Directory, 0);
    assert!(!d.is_file() && d.is_directory());
    let p = file("a", Type::Pipe, 0);
    assert!(!p.is_file() && !p.is_directory());
}

#[test]
fn help_is_due_when_asked_for() {
    assert_eq!(HelpString::deduce(&held(vec![(Flag::Short(b'h'), None)])), Some(HelpString));
    assert_eq!(
        HelpString::deduce(&MatchedFlags::new(
            vec![(Flag::Long("help"), None), (Flag::Short(b'h'), None)],
            Strictness::ForbidRedundant
        )),
        Some(HelpString)
    );
    assert_eq!(HelpString::deduce(&held(vec![(Flag::Short(b'v'), None)])), None);
    assert_eq!(HelpString.text(), USAGE);
    assert!(USAGE.starts_with("Usage: \n    search [options] [directories...]\n"));
    assert!(USAGE.ends_with("--only-dirs         only search in the directories\n"));
}

fn run(line: &[&'static str]) -> OptionsResult<'static> {
    let tokens: Vec<&'static [u8]> = line.iter().map(|s| s.as_bytes()).collect();
    Options::parse(&tokens)
}

#[test]
fn options_from_a_command_line() {
    match run(&["-n", "\\.rs$", "src", "--include-dirs", "tests"]) {
        OptionsResult::Valid(options, frees) => {
            assert!(options.filter.include_dirs);
            assert!(!options.filter.only_dirs);
            assert!(options.filter.match_file(&file("lib.rs", Type::File, 3)));
            assert!(!options.filter.match_file(&file("lib.md", Type::File, 3)));
            assert_eq!(frees, vec![b"src".as_slice(), b"tests".as_slice()]);
        },
        other => panic!("{:?}", other),
    }
}

#[test]
fn options_without_arguments() {
    match run(&[]) {
        OptionsResult::Valid(options, frees) => {
            assert!(matches!(options.filter.name_filter, NameFilter::Unfiltered));
            assert_eq!(options.filter.size_filter, SizeFilter::Unfiltered);
            assert!(frees.is_empty());
        },
        other => panic!("{:?}", other),
    }
}

#[test]
fn options_help_wins() {
    assert!(matches!(run(&["-d", "--include-dirs", "--help"]), OptionsResult::Help(HelpString)));
    assert!(matches!(run(&["-h", "-n", "("]), OptionsResult::Help(HelpString)));
}

#[test]
fn options_parse_error() {
    match run(&["--help", "--nope"]) {
        OptionsResult::InvalidOptions(e) => assert_eq!(
            e,
            OptionsError::ParseError(ParseError::UnknownArgument { name: b"nope".to_vec() })
        ),
        other => panic!("{:?}", other),
    }
    match run(&["-n"]) {
        OptionsResult::InvalidOptions(e) => assert_eq!(
            e,
            OptionsError::ParseError(ParseError::NeedsValue { flag: Flag::Short(b'n'), values: None })
        ),
        other => panic!("{:?}", other),
    }
}

#[test]
fn options_size_flag_is_not_on_the_command_line() {
    match run(&["-s", "+1k"]) {
        OptionsResult::InvalidOptions(e) => {
            assert_eq!(e, OptionsError::ParseError(ParseError::UnknownShortArgument { byte: b's' }))
        },
        other => panic!("{:?}", other),
    }
}

#[test]
fn options_conflict() {
    match run(&["-d", "--include-dirs"]) {
        OptionsResult::InvalidOptions(e) => {
            assert_eq!(e, OptionsError::OptionsConflict(flags::only_dirs(), flags::include_dirs()))
        },
        other => panic!("{:?}", other),
    }
}

#[test]
fn options_last_name_wins() {
    match run(&["-n", "a", "--name=b"]) {
        OptionsResult::Valid(options, _) => match options.filter.name_filter {
            NameFilter::Regex(regex) => assert_eq!(regex.as_str(), "b"),
            NameFilter::Unfiltered => panic!("no filter"),
        },
        other => panic!("{:?}", other),
    }
}

#[test]
fn options_deduce() {
    let options = Options::deduce(&held(vec![(Flag::Short(b'd'), None)])).unwrap();
    assert!(options.filter.only_dirs);
}

#[test]
fn registry_of_the_search() {
    let all = flags::all_args();
    assert_eq!(all.0, vec![flags::version(), flags::help(), flags::name(), flags::include_dirs(), flags::only_dirs()]);
    assert_eq!(flags::version().short, Some(b'v'));
    assert_eq!(flags::help().long, "help");
    assert_eq!(flags::include_dirs().short, None);
    assert_eq!(flags::size().short, Some(b's'));
    assert_eq!(flags::size().long, "size");
}
