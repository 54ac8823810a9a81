//! The command-line grammar as mathematics: what a sequence of tokens means
//! under a registry of flag definitions.
//!
//! Tokens are byte strings. A token is a long flag (`--name`, `--name=value`),
//! a cluster of short flags (`-abc`, `-abx=value`, `-abxvalue`), the
//! separator `--` after which nothing is a flag any more, or a free argument.

use vstd::prelude::*;
use crate::options::errors::ParseFailure;
use crate::options::parser::{Arg, Flag, Strictness, TakesValue, lookup_long_spec, lookup_short_spec};
use crate::options::query::{MatchedFlagsView, MatchesView, Occurrence};

verus! {

/// The byte `-`.
pub const DASH: u8 = 45;

/// The byte `=`.
pub const EQUALS: u8 = 61;

/// What a command line holds: the flags in the order in which they were
/// written, and the free arguments in the order in which they were written.
pub struct Parsed {
    pub flags: Seq<Occurrence>,
    pub frees: Seq<Seq<u8>>,
}

/// Splits `name=value` at the first `=`, provided that there is something
/// on both sides of it.
pub open spec fn split_on_equal_spec(input: Seq<u8>) -> Option<(Seq<u8>, Seq<u8>)> {
    match input.index_of_first(EQUALS) {
        Some(at) => if 0 < at && at + 1 < input.len() {
            Some((input.subrange(0, at), input.subrange(at + 1, input.len() as int)))
        } else {
            None
        },
        None => None,
    }
}

/// The token `--`.
pub open spec fn is_separator(token: Seq<u8>) -> bool {
    token.len() == 2 && token[0] == DASH && token[1] == DASH
}

/// A token that begins with `--` and goes on.
pub open spec fn is_long(token: Seq<u8>) -> bool {
    token.len() > 2 && token[0] == DASH && token[1] == DASH
}

/// A token that begins with a single `-` and goes on.
pub open spec fn is_short(token: Seq<u8>) -> bool {
    token.len() >= 2 && token[0] == DASH && token[1] != DASH
}

/// The meaning of a long flag written `name`, where `next` is the token that
/// follows it, if any. The result holds the occurrence and whether `next`
/// was taken as its value.
pub open spec fn long_flag(registry: Seq<Arg>, name: Seq<u8>, next: Option<Seq<u8>>) -> Result<
    (Occurrence, bool),
    ParseFailure,
> {
    match split_on_equal_spec(name) {
        Some((before, after)) => match lookup_long_spec(registry, before) {
            None => Err(ParseFailure::UnknownArgument { name: before }),
            Some(arg) => match arg.takes_value {
                TakesValue::Forbidden => Err(
                    ParseFailure::ForbiddenValue { flag: Flag::Long(arg.long) },
                ),
                _ => Ok(((Flag::Long(arg.long), Some(after)), false)),
            },
        },
        None => match lookup_long_spec(registry, name) {
            None => Err(ParseFailure::UnknownArgument { name }),
            Some(arg) => match arg.takes_value {
                TakesValue::Forbidden => Ok(((Flag::Long(arg.long), None), false)),
                TakesValue::Necessary(values) => match next {
                    Some(value) => Ok(((Flag::Long(arg.long), Some(value)), true)),
                    None => Err(
                        ParseFailure::NeedsValue { flag: Flag::Long(arg.long), values },
                    ),
                },
                TakesValue::Optional(_) => match next {
                    Some(value) => Ok(((Flag::Long(arg.long), Some(value)), true)),
                    None => Ok(((Flag::Long(arg.long), None), false)),
                },
            },
        },
    }
}

/// The meaning of the short flags that stand before the one that `=value`
/// belongs to: each is recorded without a value, and none may need one.
pub open spec fn valueless(registry: Seq<Arg>, letters: Seq<u8>) -> Result<
    Seq<Occurrence>,
    ParseFailure,
>
    decreases letters.len(),
{
    if letters.len() == 0 {
        Ok(Seq::empty())
    } else {
        let letter = letters[0];
        match lookup_short_spec(registry, letter) {
            None => Err(ParseFailure::UnknownShortArgument { byte: letter }),
            Some(arg) => match arg.takes_value {
                TakesValue::Necessary(values) => Err(
                    ParseFailure::NeedsValue { flag: Flag::Short(letter), values },
                ),
                _ => match valueless(registry, letters.drop_first()) {
                    Err(e) => Err(e),
                    Ok(others) => Ok(seq![(Flag::Short(letter), None)] + others),
                },
            },
        }
    }
}

/// The meaning of `letters=value`: the last letter gets the value.
pub open spec fn cluster_with_value(registry: Seq<Arg>, letters: Seq<u8>, value: Seq<u8>) -> Result<
    Seq<Occurrence>,
    ParseFailure,
>
    recommends
        letters.len() > 0,
{
    match valueless(registry, letters.drop_last()) {
        Err(e) => Err(e),
        Ok(others) => {
            let letter = letters.last();
            match lookup_short_spec(registry, letter) {
                None => Err(ParseFailure::UnknownShortArgument { byte: letter }),
                Some(arg) => match arg.takes_value {
                    TakesValue::Forbidden => Err(
                        ParseFailure::ForbiddenValue { flag: Flag::Short(letter) },
                    ),
                    _ => Ok(others.push((Flag::Short(letter), Some(value)))),
                },
            }
        },
    }
}

/// The meaning of fused short flags without `=value`. The first letter that
/// may take a value takes the rest of the letters as its value; where it is
/// the last letter, it takes `next`, the token that follows, if there is
/// one. The result holds the occurrences and whether `next` was taken.
pub open spec fn fused(registry: Seq<Arg>, letters: Seq<u8>, next: Option<Seq<u8>>) -> Result<
    (Seq<Occurrence>, bool),
    ParseFailure,
>
    decreases letters.len(),
{
    if letters.len() == 0 {
        Ok((Seq::empty(), false))
    } else {
        let letter = letters[0];
        let flag = Flag::Short(letter);
        match lookup_short_spec(registry, letter) {
            None => Err(ParseFailure::UnknownShortArgument { byte: letter }),
            Some(arg) => match arg.takes_value {
                TakesValue::Forbidden => match fused(registry, letters.drop_first(), next) {
                    Err(e) => Err(e),
                    Ok((others, took)) => Ok((seq![(flag, None)] + others, took)),
                },
                TakesValue::Necessary(values) => if letters.len() > 1 {
                    Ok((seq![(flag, Some(letters.drop_first()))], false))
                } else {
                    match next {
                        Some(value) => Ok((seq![(flag, Some(value))], true)),
                        None => Err(ParseFailure::NeedsValue { flag, values }),
                    }
                },
                TakesValue::Optional(_) => if letters.len() > 1 {
                    Ok((seq![(flag, Some(letters.drop_first()))], false))
                } else {
                    match next {
                        Some(value) => Ok((seq![(flag, Some(value))], true)),
                        None => Ok((seq![(flag, None)], false)),
                    }
                },
            },
        }
    }
}

/// The meaning of a cluster of short flags written `letters`, where `next`
/// is the token that follows it, if any.
pub open spec fn short_cluster(registry: Seq<Arg>, letters: Seq<u8>, next: Option<Seq<u8>>) -> Result<
    (Seq<Occurrence>, bool),
    ParseFailure,
> {
    match split_on_equal_spec(letters) {
        Some((before, after)) => match cluster_with_value(registry, before, after) {
            Err(e) => Err(e),
            Ok(occurrences) => Ok((occurrences, false)),
        },
        None => fused(registry, letters, next),
    }
}

/// The token after the first of `tokens`, if there is one.
pub open spec fn second(tokens: Seq<Seq<u8>>) -> Option<Seq<u8>> {
    if tokens.len() > 1 {
        Some(tokens[1])
    } else {
        None
    }
}

/// `tokens` without its first token, and without its second where `took`.
pub open spec fn after_flag(tokens: Seq<Seq<u8>>, took: bool) -> Seq<Seq<u8>> {
    if took && tokens.len() > 1 {
        tokens.skip(2)
    } else {
        tokens.skip(1)
    }
}

/// `parsed` with `flags` put before its flags and `frees` before its free
/// arguments; a failure stays as it is.
pub open spec fn preceded_by(
    flags: Seq<Occurrence>,
    frees: Seq<Seq<u8>>,
    parsed: Result<Parsed, ParseFailure>,
) -> Result<Parsed, ParseFailure> {
    match parsed {
        Ok(p) => Ok(Parsed { flags: flags + p.flags, frees: frees + p.frees }),
        Err(e) => Err(e),
    }
}

/// The meaning of `tokens`. While `parsing`, tokens are read as flags where
/// they look like flags; after the separator `--` every token is a free
/// argument. The first failure ends the parse.
pub open spec fn parse_tokens(registry: Seq<Arg>, tokens: Seq<Seq<u8>>, parsing: bool) -> Result<
    Parsed,
    ParseFailure,
>
    decreases tokens.len(),
{
    if tokens.len() == 0 {
        Ok(Parsed { flags: Seq::empty(), frees: Seq::empty() })
    } else {
        let token = tokens[0];
        if !parsing {
            preceded_by(Seq::empty(), seq![token], parse_tokens(registry, tokens.skip(1), false))
        } else if is_separator(token) {
            parse_tokens(registry, tokens.skip(1), false)
        } else if is_long(token) {
            match long_flag(registry, token.skip(2), second(tokens)) {
                Err(e) => Err(e),
                Ok((occurrence, took)) => preceded_by(
                    seq![occurrence],
                    Seq::empty(),
                    parse_tokens(registry, after_flag(tokens, took), true),
                ),
            }
        } else if is_short(token) {
            match short_cluster(registry, token.skip(1), second(tokens)) {
                Err(e) => Err(e),
                Ok((occurrences, took)) => preceded_by(
                    occurrences,
                    Seq::empty(),
                    parse_tokens(registry, after_flag(tokens, took), true),
                ),
            }
        } else {
            preceded_by(Seq::empty(), seq![token], parse_tokens(registry, tokens.skip(1), true))
        }
    }
}

/// The result of parsing a whole command line.
pub open spec fn parse_spec(registry: Seq<Arg>, tokens: Seq<Seq<u8>>, strictness: Strictness) -> Result<
    MatchesView,
    ParseFailure,
> {
    match parse_tokens(registry, tokens, true) {
        Ok(parsed) => Ok(
            MatchesView {
                flags: MatchedFlagsView { flags: parsed.flags, strictness },
                frees: parsed.frees,
            },
        ),
        Err(e) => Err(e),
    }
}

} // verus!
