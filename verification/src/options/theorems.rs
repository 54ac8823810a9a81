//! What holds of every command line.

use vstd::prelude::*;
use crate::options::errors::{ParseError, ParseFailure};
use crate::options::grammar::{
    DASH, EQUALS, Parsed, after_flag, fused, is_long, is_separator, is_short, long_flag,
    parse_spec, parse_tokens, preceded_by, second, short_cluster, split_on_equal_spec, valueless,
};
use crate::options::matched::Matches;
use crate::options::parser::{
    Arg, Flag, Strictness, TakesValue, lookup_long_spec, lookup_short_spec, parse_view,
};
use crate::options::query::{MatchedFlagsView, MatchesView, Occurrence};

verus! {

/// Parsing is a function of the registry, the tokens and the strictness:
/// whatever two parses of the same command line return is the same.
pub proof fn theorem_parse_is_deterministic(
    registry: Seq<Arg>,
    tokens: Seq<Seq<u8>>,
    strictness: Strictness,
    first: Result<Matches<'_>, ParseError>,
    second: Result<Matches<'_>, ParseError>,
)
    requires
        parse_view(first) == parse_spec(registry, tokens, strictness),
        parse_view(second) == parse_spec(registry, tokens, strictness),
    ensures
        parse_view(first) == parse_view(second),
{
}

/// Once the separator `--` has been read, every token is a free argument,
/// whatever it looks like.
pub proof fn theorem_all_free_after_separator(registry: Seq<Arg>, tokens: Seq<Seq<u8>>)
    ensures
        parse_tokens(registry, tokens, false) == Ok::<Parsed, ParseFailure>(
            Parsed { flags: Seq::empty(), frees: tokens },
        ),
    decreases tokens.len(),
{
    if tokens.len() > 0 {
        theorem_all_free_after_separator(registry, tokens.skip(1));
        assert(seq![tokens[0]] + tokens.skip(1) =~= tokens);
        assert(Seq::<Occurrence>::empty() + Seq::<Occurrence>::empty() =~= Seq::<
            Occurrence,
        >::empty());
    } else {
        assert(tokens =~= Seq::<Seq<u8>>::empty());
    }
}

/// A command line that begins with the separator `--` holds no flags, and
/// all that follows the separator is free.
pub proof fn theorem_separator_first(
    registry: Seq<Arg>,
    tokens: Seq<Seq<u8>>,
    strictness: Strictness,
)
    requires
        tokens.len() > 0,
        is_separator(tokens[0]),
    ensures
        parse_spec(registry, tokens, strictness) == Ok::<MatchesView, ParseFailure>(
            MatchesView {
                flags: MatchedFlagsView { flags: Seq::empty(), strictness },
                frees: tokens.skip(1),
            },
        ),
{
    theorem_all_free_after_separator(registry, tokens.skip(1));
}

/// A split at `=` has something on both sides, the name holds no `=`, and
/// name, `=` and value together are the input. There is no split exactly
/// where the input holds no `=`, or begins with `=`, or holds its only `=`
/// at its end.
pub proof fn theorem_split_on_equal(input: Seq<u8>)
    ensures
        match split_on_equal_spec(input) {
            Some((before, after)) => {
                &&& before.len() > 0
                &&& after.len() > 0
                &&& !before.contains(EQUALS)
                &&& input == before + seq![EQUALS] + after
            },
            None => {
                ||| !input.contains(EQUALS)
                ||| input[0] == EQUALS
                ||| input.last() == EQUALS && !input.drop_last().contains(EQUALS)
            },
        },
{
    input.index_of_first_ensures(EQUALS);
    match split_on_equal_spec(input) {
        Some((before, after)) => {
            assert(input =~= before + seq![EQUALS] + after);
            if before.contains(EQUALS) {
                let j = choose|j: int| 0 <= j < before.len() && before[j] == EQUALS;
                assert(input[j] == EQUALS);
            }
        },
        None => {
            if input.contains(EQUALS) && input[0] != EQUALS {
                let first = input.index_of_first(EQUALS)->0;
                assert(first == input.len() - 1);
                let shorter = input.drop_last();
                if shorter.contains(EQUALS) {
                    let j = choose|j: int| 0 <= j < shorter.len() && shorter[j] == EQUALS;
                    assert(input[j] == EQUALS);
                }
            }
        },
    }
}

/// A long flag that must have a value, stands last and has no value
/// attached fails, and the failure carries the examples of its definition.
/// This holds of the last token of a command line as of a command line of
/// one token.
pub proof fn theorem_long_needs_value(
    registry: Seq<Arg>,
    token: Seq<u8>,
    arg: Arg,
    values: Option<crate::options::parser::Values>,
    strictness: Strictness,
)
    requires
        is_long(token),
        split_on_equal_spec(token.skip(2)) is None,
        lookup_long_spec(registry, token.skip(2)) == Some(arg),
        arg.takes_value == TakesValue::Necessary(values),
    ensures
        parse_tokens(registry, seq![token], true) == Err::<Parsed, ParseFailure>(
            ParseFailure::NeedsValue { flag: Flag::Long(arg.long), values },
        ),
        parse_spec(registry, seq![token], strictness) == Err::<MatchesView, ParseFailure>(
            ParseFailure::NeedsValue { flag: Flag::Long(arg.long), values },
        ),
{
}

/// A short flag that must have a value, stands last and has no value
/// attached fails, and the failure carries the examples of its definition.
/// This holds of the last token of a command line as of a command line of
/// one token.
pub proof fn theorem_short_needs_value(
    registry: Seq<Arg>,
    letter: u8,
    arg: Arg,
    values: Option<crate::options::parser::Values>,
    strictness: Strictness,
)
    requires
        letter != DASH,
        lookup_short_spec(registry, letter) == Some(arg),
        arg.takes_value == TakesValue::Necessary(values),
    ensures
        parse_tokens(registry, seq![seq![DASH, letter]], true) == Err::<Parsed, ParseFailure>(
            ParseFailure::NeedsValue { flag: Flag::Short(letter), values },
        ),
        parse_spec(registry, seq![seq![DASH, letter]], strictness) == Err::<
            MatchesView,
            ParseFailure,
        >(ParseFailure::NeedsValue { flag: Flag::Short(letter), values }),
{
    let token = seq![DASH, letter];
    let letters = token.skip(1);
    assert(letters =~= seq![letter]);
    letters.index_of_first_ensures(EQUALS);
    assert(split_on_equal_spec(letters) is None);
    assert(letters.drop_first() =~= Seq::<u8>::empty());
}

/// A long flag that is not defined fails as soon as it is read, whatever
/// follows it: the name that is looked up is what stands before `=value`,
/// or the whole name where nothing is split off.
pub proof fn theorem_unknown_long(
    registry: Seq<Arg>,
    tokens: Seq<Seq<u8>>,
    strictness: Strictness,
)
    requires
        tokens.len() > 0,
        is_long(tokens[0]),
        lookup_long_spec(registry, looked_up(tokens[0].skip(2))) is None,
    ensures
        parse_tokens(registry, tokens, true) == Err::<Parsed, ParseFailure>(
            ParseFailure::UnknownArgument { name: looked_up(tokens[0].skip(2)) },
        ),
        parse_spec(registry, tokens, strictness) == Err::<MatchesView, ParseFailure>(
            ParseFailure::UnknownArgument { name: looked_up(tokens[0].skip(2)) },
        ),
{
}

/// The part of a flag's name that is looked up: what stands before
/// `=value`, or the whole name where nothing is split off.
pub open spec fn looked_up(name: Seq<u8>) -> Seq<u8> {
    match split_on_equal_spec(name) {
        Some((before, _)) => before,
        None => name,
    }
}

/// A cluster of short flags whose first letter is not defined fails as soon
/// as it is read, whatever follows it.
pub proof fn theorem_unknown_short(
    registry: Seq<Arg>,
    tokens: Seq<Seq<u8>>,
    strictness: Strictness,
)
    requires
        tokens.len() > 0,
        is_short(tokens[0]),
        lookup_short_spec(registry, tokens[0][1]) is None,
    ensures
        parse_tokens(registry, tokens, true) == Err::<Parsed, ParseFailure>(
            ParseFailure::UnknownShortArgument { byte: tokens[0][1] },
        ),
        parse_spec(registry, tokens, strictness) == Err::<MatchesView, ParseFailure>(
            ParseFailure::UnknownShortArgument { byte: tokens[0][1] },
        ),
{
    let letters = tokens[0].skip(1);
    assert(letters[0] == tokens[0][1]);
    match split_on_equal_spec(letters) {
        Some((before, after)) => {
            letters.index_of_first_ensures(EQUALS);
            assert(before[0] == letters[0]);
            if before.len() > 1 {
                assert(before.drop_last()[0] == letters[0]);
            } else {
                assert(before.drop_last() =~= Seq::<u8>::empty());
                assert(before.last() == letters[0]);
            }
        },
        None => {},
    }
}

/// A short form that is found is that of an entry of the registry, the
/// first with that short form; one that is not found is the short form of
/// no entry.
pub proof fn theorem_lookup_short(registry: Seq<Arg>, short: u8)
    ensures
        match lookup_short_spec(registry, short) {
            Some(arg) => exists|at: int|
                0 <= at < registry.len() && #[trigger] registry[at] == arg && arg.short == Some(
                    short,
                ) && forall|earlier: int|
                    0 <= earlier < at ==> (#[trigger] registry[earlier]).short != Some(short),
            None => forall|at: int|
                0 <= at < registry.len() ==> (#[trigger] registry[at]).short != Some(short),
        },
    decreases registry.len(),
{
    if registry.len() > 0 {
        if registry[0].short == Some(short) {
            assert(registry[0] == registry[0]);
        } else {
            let rest = registry.drop_first();
            theorem_lookup_short(rest, short);
            match lookup_short_spec(rest, short) {
                Some(arg) => {
                    let at = choose|at: int|
                        0 <= at < rest.len() && #[trigger] rest[at] == arg && arg.short == Some(
                            short,
                        ) && forall|earlier: int|
                            0 <= earlier < at ==> (#[trigger] rest[earlier]).short != Some(short);
                    assert(registry[at + 1] == arg);
                    assert forall|earlier: int| 0 <= earlier < at + 1 implies (
                    #[trigger] registry[earlier]).short != Some(short) by {
                        if earlier > 0 {
                            assert(rest[earlier - 1] == registry[earlier]);
                        }
                    }
                },
                None => {
                    assert forall|at: int| 0 <= at < registry.len() implies (
                    #[trigger] registry[at]).short != Some(short) by {
                        if at > 0 {
                            assert(rest[at - 1] == registry[at]);
                        }
                    }
                },
            }
        }
    }
}

/// A long form that is found is that of an entry of the registry, the
/// first that is written so; one that is not found is the long form of no
/// entry.
pub proof fn theorem_lookup_long(registry: Seq<Arg>, name: Seq<u8>)
    ensures
        match lookup_long_spec(registry, name) {
            Some(arg) => exists|at: int|
                0 <= at < registry.len() && #[trigger] registry[at] == arg && arg.long_bytes()
                    == name && forall|earlier: int|
                    0 <= earlier < at ==> (#[trigger] registry[earlier]).long_bytes() != name,
            None => forall|at: int|
                0 <= at < registry.len() ==> (#[trigger] registry[at]).long_bytes() != name,
        },
    decreases registry.len(),
{
    if registry.len() > 0 {
        if registry[0].long_bytes() == name {
            assert(registry[0] == registry[0]);
        } else {
            let rest = registry.drop_first();
            theorem_lookup_long(rest, name);
            match lookup_long_spec(rest, name) {
                Some(arg) => {
                    let at = choose|at: int|
                        0 <= at < rest.len() && #[trigger] rest[at] == arg && arg.long_bytes()
                            == name && forall|earlier: int|
                            0 <= earlier < at ==> (#[trigger] rest[earlier]).long_bytes() != name;
                    assert(registry[at + 1] == arg);
                    assert forall|earlier: int| 0 <= earlier < at + 1 implies (
                    #[trigger] registry[earlier]).long_bytes() != name by {
                        if earlier > 0 {
                            assert(rest[earlier - 1] == registry[earlier]);
                        }
                    }
                },
                None => {
                    assert forall|at: int| 0 <= at < registry.len() implies (
                    #[trigger] registry[at]).long_bytes() != name by {
                        if at > 0 {
                            assert(rest[at - 1] == registry[at]);
                        }
                    }
                },
            }
        }
    }
}

/// Whether a value, or none, is what a flag with this policy is recorded
/// with: never a value where it is forbidden, always one where it is
/// necessary.
pub open spec fn fits(takes_value: TakesValue, value: Option<Seq<u8>>) -> bool {
    match takes_value {
        TakesValue::Forbidden => value is None,
        TakesValue::Necessary(_) => value is Some,
        TakesValue::Optional(_) => true,
    }
}

/// That an occurrence is a form of an entry of the registry and has a value
/// or none as that entry asks.
pub open spec fn defined_in(registry: Seq<Arg>, occurrence: Occurrence) -> bool {
    exists|at: int|
        0 <= at < registry.len() && occurrence.0.spec_matches(#[trigger] registry[at]) && fits(
            registry[at].takes_value,
            occurrence.1,
        )
}

/// That every one of the occurrences is defined in the registry.
pub open spec fn all_defined_in(registry: Seq<Arg>, occurrences: Seq<Occurrence>) -> bool {
    forall|i: int| 0 <= i < occurrences.len() ==> defined_in(registry, #[trigger] occurrences[i])
}

/// No flag is recorded that the registry does not define, none with a
/// value that its definition forbids, and none without a value that its
/// definition asks for.
pub proof fn theorem_flags_are_defined(registry: Seq<Arg>, tokens: Seq<Seq<u8>>, parsing: bool)
    ensures
        parse_tokens(registry, tokens, parsing) matches Ok(parsed) ==> all_defined_in(
            registry,
            parsed.flags,
        ),
    decreases tokens.len(),
{
    if tokens.len() > 0 {
        let token = tokens[0];
        if !parsing || is_separator(token) {
            theorem_flags_are_defined(registry, tokens.skip(1), false);
            match parse_tokens(registry, tokens.skip(1), false) {
                Ok(rest) => {
                    assert(Seq::<Occurrence>::empty() + rest.flags =~= rest.flags);
                },
                Err(_) => {},
            }
        } else if is_long(token) {
            lemma_long_flag_is_defined(registry, token.skip(2), second(tokens));
            match long_flag(registry, token.skip(2), second(tokens)) {
                Ok((occurrence, took)) => {
                    theorem_flags_are_defined(registry, after_flag(tokens, took), true);
                    lemma_all_defined_joined(
                        registry,
                        seq![occurrence],
                        parse_tokens(registry, after_flag(tokens, took), true),
                    );
                },
                Err(_) => {},
            }
        } else if is_short(token) {
            lemma_short_cluster_is_defined(registry, token.skip(1), second(tokens));
            match short_cluster(registry, token.skip(1), second(tokens)) {
                Ok((occurrences, took)) => {
                    theorem_flags_are_defined(registry, after_flag(tokens, took), true);
                    lemma_all_defined_joined(
                        registry,
                        occurrences,
                        parse_tokens(registry, after_flag(tokens, took), true),
                    );
                },
                Err(_) => {},
            }
        } else {
            theorem_flags_are_defined(registry, tokens.skip(1), true);
            match parse_tokens(registry, tokens.skip(1), true) {
                Ok(rest) => {
                    assert(Seq::<Occurrence>::empty() + rest.flags =~= rest.flags);
                },
                Err(_) => {},
            }
        }
    }
}

/// Occurrences that are all defined, put before a result whose occurrences
/// are all defined, give occurrences that are all defined.
proof fn lemma_all_defined_joined(
    registry: Seq<Arg>,
    first: Seq<Occurrence>,
    rest: Result<Parsed, ParseFailure>,
)
    requires
        all_defined_in(registry, first),
        rest matches Ok(parsed) ==> all_defined_in(registry, parsed.flags),
    ensures
        preceded_by(first, Seq::empty(), rest) matches Ok(parsed) ==> all_defined_in(
            registry,
            parsed.flags,
        ),
{
    match rest {
        Ok(parsed) => {
            let joined = first + parsed.flags;
            assert forall|i: int| 0 <= i < joined.len() implies defined_in(
                registry,
                #[trigger] joined[i],
            ) by {
                if i < first.len() {
                    assert(joined[i] == first[i]);
                } else {
                    assert(joined[i] == parsed.flags[i - first.len()]);
                }
            }
        },
        Err(_) => {},
    }
}

/// What a long flag is recorded as is defined in the registry.
proof fn lemma_long_flag_is_defined(registry: Seq<Arg>, name: Seq<u8>, next: Option<Seq<u8>>)
    ensures
        long_flag(registry, name, next) matches Ok((occurrence, _)) ==> all_defined_in(
            registry,
            seq![occurrence],
        ),
{
    theorem_lookup_long(registry, looked_up(name));
    match long_flag(registry, name, next) {
        Ok((occurrence, _)) => {
            let arg = lookup_long_spec(registry, looked_up(name))->0;
            let at = choose|at: int|
                0 <= at < registry.len() && #[trigger] registry[at] == arg && arg.long_bytes()
                    == looked_up(name) && forall|earlier: int|
                    0 <= earlier < at ==> (#[trigger] registry[earlier]).long_bytes() != looked_up(
                        name,
                    );
            assert(occurrence.0.spec_matches(registry[at]));
            assert(defined_in(registry, occurrence));
        },
        Err(_) => {},
    }
}

/// A short flag that is found, recorded with a value that fits its
/// definition, is defined in the registry.
proof fn lemma_short_flag_is_defined(registry: Seq<Arg>, letter: u8, value: Option<Seq<u8>>)
    requires
        lookup_short_spec(registry, letter) matches Some(arg) && fits(arg.takes_value, value),
    ensures
        defined_in(registry, (Flag::Short(letter), value)),
{
    theorem_lookup_short(registry, letter);
    let arg = lookup_short_spec(registry, letter)->0;
    let at = choose|at: int|
        0 <= at < registry.len() && #[trigger] registry[at] == arg && arg.short == Some(letter)
            && forall|earlier: int|
            0 <= earlier < at ==> (#[trigger] registry[earlier]).short != Some(letter);
    assert(Flag::Short(letter).spec_matches(registry[at]));
}

/// What the letters before the one with `=value` are recorded as is defined
/// in the registry.
proof fn lemma_valueless_is_defined(registry: Seq<Arg>, letters: Seq<u8>)
    ensures
        valueless(registry, letters) matches Ok(occurrences) ==> all_defined_in(
            registry,
            occurrences,
        ),
    decreases letters.len(),
{
    if letters.len() > 0 {
        lemma_valueless_is_defined(registry, letters.drop_first());
        match valueless(registry, letters) {
            Ok(occurrences) => {
                let others = valueless(registry, letters.drop_first())->Ok_0;
                lemma_short_flag_is_defined(registry, letters[0], None);
                assert forall|i: int| 0 <= i < occurrences.len() implies defined_in(
                    registry,
                    #[trigger] occurrences[i],
                ) by {
                    if i > 0 {
                        assert(occurrences[i] == others[i - 1]);
                    }
                }
            },
            Err(_) => {},
        }
    }
}

/// What fused short flags are recorded as is defined in the registry.
proof fn lemma_fused_is_defined(registry: Seq<Arg>, letters: Seq<u8>, next: Option<Seq<u8>>)
    ensures
        fused(registry, letters, next) matches Ok((occurrences, _)) ==> all_defined_in(
            registry,
            occurrences,
        ),
    decreases letters.len(),
{
    if letters.len() > 0 {
        lemma_fused_is_defined(registry, letters.drop_first(), next);
        match fused(registry, letters, next) {
            Ok((occurrences, _)) => {
                lemma_short_flag_is_defined(registry, letters[0], occurrences[0].1);
                let arg = lookup_short_spec(registry, letters[0])->0;
                if arg.takes_value is Forbidden {
                    let others = fused(registry, letters.drop_first(), next)->Ok_0.0;
                    assert forall|i: int| 0 <= i < occurrences.len() implies defined_in(
                        registry,
                        #[trigger] occurrences[i],
                    ) by {
                        if i > 0 {
                            assert(occurrences[i] == others[i - 1]);
                        }
                    }
                }
            },
            Err(_) => {},
        }
    }
}

/// What a cluster of short flags is recorded as is defined in the registry.
proof fn lemma_short_cluster_is_defined(
    registry: Seq<Arg>,
    letters: Seq<u8>,
    next: Option<Seq<u8>>,
)
    ensures
        short_cluster(registry, letters, next) matches Ok((occurrences, _)) ==> all_defined_in(
            registry,
            occurrences,
        ),
{
    match split_on_equal_spec(letters) {
        Some((before, after)) => {
            lemma_valueless_is_defined(registry, before.drop_last());
            match short_cluster(registry, letters, next) {
                Ok((occurrences, _)) => {
                    let others = valueless(registry, before.drop_last())->Ok_0;
                    lemma_short_flag_is_defined(registry, before.last(), Some(after));
                    assert forall|i: int| 0 <= i < occurrences.len() implies defined_in(
                        registry,
                        #[trigger] occurrences[i],
                    ) by {
                        if i < others.len() {
                            assert(occurrences[i] == others[i]);
                        }
                    }
                },
                Err(_) => {},
            }
        },
        None => {
            lemma_fused_is_defined(registry, letters, next);
        },
    }
}

/// Fused short flags that all forbid a value are recorded one by one,
/// without a value, and take nothing that follows them.
pub proof fn theorem_fused_forbidden(registry: Seq<Arg>, letters: Seq<u8>, next: Option<Seq<u8>>)
    requires
        forall|i: int|
            0 <= i < letters.len() ==> (lookup_short_spec(registry, #[trigger] letters[i])
                matches Some(arg) && arg.takes_value is Forbidden),
    ensures
        fused(registry, letters, next) == Ok::<(Seq<Occurrence>, bool), ParseFailure>(
            (Seq::new(letters.len(), |i: int| (Flag::Short(letters[i]), None)), false),
        ),
    decreases letters.len(),
{
    let recorded = Seq::new(letters.len(), |i: int| (Flag::Short(letters[i]), None::<Seq<u8>>));
    if letters.len() > 0 {
        let rest = letters.drop_first();
        assert forall|i: int| 0 <= i < rest.len() implies (lookup_short_spec(
            registry,
            #[trigger] rest[i],
        ) matches Some(arg) && arg.takes_value is Forbidden) by {
            assert(rest[i] == letters[i + 1]);
        }
        theorem_fused_forbidden(registry, rest, next);
        assert(letters[0] == letters[0]);
        let others = Seq::new(rest.len(), |i: int| (Flag::Short(rest[i]), None::<Seq<u8>>));
        assert(seq![(Flag::Short(letters[0]), None::<Seq<u8>>)] + others =~= recorded);
    } else {
        assert(recorded =~= Seq::<Occurrence>::empty());
    }
}

/// That no two entries of a registry share a short form or a long form.
pub open spec fn distinct_forms(registry: Seq<Arg>) -> bool {
    forall|i: int, j: int|
        0 <= i < j < registry.len() ==> {
            &&& (#[trigger] registry[i]).long@ != (#[trigger] registry[j]).long@
            &&& registry[i].short is Some ==> registry[i].short != registry[j].short
        }
}

/// In a registry whose entries share no form, a short form is found at the
/// one entry that has it, and a long form at the one entry that is written
/// so.
pub proof fn theorem_lookup_unique(registry: Seq<Arg>, at: int)
    requires
        distinct_forms(registry),
        0 <= at < registry.len(),
    ensures
        registry[at].short matches Some(short) ==> lookup_short_spec(registry, short) == Some(
            registry[at],
        ),
        lookup_long_spec(registry, registry[at].long_bytes()) == Some(registry[at]),
{
    match registry[at].short {
        Some(short) => {
            theorem_lookup_short(registry, short);
            match lookup_short_spec(registry, short) {
                Some(arg) => {
                    let found = choose|found: int|
                        0 <= found < registry.len() && #[trigger] registry[found] == arg
                            && arg.short == Some(short) && forall|earlier: int|
                            0 <= earlier < found ==> (#[trigger] registry[earlier]).short != Some(
                                short,
                            );
                    if found < at {
                        assert(registry[found].short != registry[at].short);
                    }
                },
                None => {
                    assert(registry[at].short != Some(short));
                },
            }
        },
        None => {},
    }
    let name = registry[at].long_bytes();
    theorem_lookup_long(registry, name);
    match lookup_long_spec(registry, name) {
        Some(arg) => {
            let found = choose|found: int|
                0 <= found < registry.len() && #[trigger] registry[found] == arg
                    && arg.long_bytes() == name && forall|earlier: int|
                    0 <= earlier < found ==> (#[trigger] registry[earlier]).long_bytes() != name;
            if found < at {
                vstd::utf8::encode_utf8_decode_utf8(registry[found].long@);
                vstd::utf8::encode_utf8_decode_utf8(registry[at].long@);
                assert(registry[found].long@ != registry[at].long@);
            }
        },
        None => {
            assert(registry[at].long_bytes() != name);
        },
    }
}

/// In a registry whose entries share no form, the long form of an entry
/// that must have a value, written last and without a value, fails, and
/// the failure carries that entry's own long form and examples. The long
/// form is not empty and holds no `=`.
pub proof fn theorem_entry_long_needs_value(
    registry: Seq<Arg>,
    at: int,
    values: Option<crate::options::parser::Values>,
    strictness: Strictness,
)
    requires
        distinct_forms(registry),
        0 <= at < registry.len(),
        registry[at].takes_value == TakesValue::Necessary(values),
        registry[at].long_bytes().len() > 0,
        !registry[at].long_bytes().contains(EQUALS),
    ensures
        parse_spec(registry, seq![seq![DASH, DASH] + registry[at].long_bytes()], strictness)
            == Err::<MatchesView, ParseFailure>(
            ParseFailure::NeedsValue { flag: Flag::Long(registry[at].long), values },
        ),
{
    let name = registry[at].long_bytes();
    let token = seq![DASH, DASH] + name;
    assert(token.skip(2) =~= name);
    name.index_of_first_ensures(EQUALS);
    theorem_lookup_unique(registry, at);
    theorem_long_needs_value(registry, token, registry[at], values, strictness);
}

/// In a registry whose entries share no form, the short form of an entry
/// that must have a value, written last and without a value, fails, and
/// the failure carries that short form and the entry's own examples.
pub proof fn theorem_entry_short_needs_value(
    registry: Seq<Arg>,
    at: int,
    letter: u8,
    values: Option<crate::options::parser::Values>,
    strictness: Strictness,
)
    requires
        distinct_forms(registry),
        0 <= at < registry.len(),
        registry[at].short == Some(letter),
        letter != DASH,
        registry[at].takes_value == TakesValue::Necessary(values),
    ensures
        parse_spec(registry, seq![seq![DASH, letter]], strictness) == Err::<
            MatchesView,
            ParseFailure,
        >(ParseFailure::NeedsValue { flag: Flag::Short(letter), values }),
{
    theorem_lookup_unique(registry, at);
    theorem_short_needs_value(registry, letter, registry[at], values, strictness);
}

} // verus!
