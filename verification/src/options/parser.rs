//! Flag definitions and the parser that reads a command line by them.

use vstd::prelude::*;
use vstd::string::StringSliceAdditionalSpecFns;
use vstd::slice::{slice_subrange, slice_to_vec};
use crate::options::bytes::bytes_eq;
use crate::options::errors::{ParseError, ParseFailure};
use crate::options::grammar::{
    DASH, EQUALS, Parsed, after_flag, cluster_with_value, fused, long_flag, parse_spec,
    parse_tokens, preceded_by, second, short_cluster, split_on_equal_spec, valueless,
};
pub use crate::options::matched::{MatchedFlags, Matches};
use crate::options::matched::{occurrences_view, tokens_view, value_view};
use crate::options::query::{MatchesView, Occurrence};

verus! {

/// The short form of a flag: the byte after a single dash.
pub type ShortArg = u8;

/// The long form of a flag: the name after two dashes.
pub type LongArg = &'static str;

/// Example values of a flag, shown when its value is missing.
pub type Values = &'static [&'static str];

/// One occurrence of a flag on the command line, in the form it was written.
#[derive(Debug, Clone, Copy, PartialEq)]
pub enum Flag {
    Short(ShortArg),
    Long(LongArg),
}

/// What to do when a flag is given more than once.
#[derive(PartialEq, Eq, Debug, Clone, Copy, Structural)]
pub enum Strictness {
    /// Giving a flag twice is an error.
    ForbidRedundant,
    /// The last occurrence of a flag is the one that counts.
    UseLastArgument,
}

/// Whether a flag takes a value.
#[derive(PartialEq, Debug, Clone, Copy)]
pub enum TakesValue {
    /// The flag must be given a value.
    Necessary(Option<Values>),
    /// The flag may be given a value.
    Optional(Option<Values>),
    /// The flag must not be given a value.
    Forbidden,
}

/// The definition of a flag.
#[derive(PartialEq, Debug, Clone, Copy)]
pub struct Arg {
    /// The short form, if the flag has one.
    pub short: Option<ShortArg>,
    /// The long form.
    pub long: LongArg,
    /// Whether the flag takes a value.
    pub takes_value: TakesValue,
}

impl Arg {
    /// The long form as the bytes that are written on the command line.
    pub open spec fn long_bytes(self) -> Seq<u8> {
        self.long.spec_bytes()
    }
}

impl Flag {
    /// Whether this occurrence is a form of the flag that `arg` defines.
    pub open spec fn spec_matches(self, arg: Arg) -> bool {
        match self {
            Flag::Short(short) => arg.short == Some(short),
            Flag::Long(long) => arg.long@ == long@,
        }
    }

    /// Whether this occurrence is a form of the flag that `arg` defines.
    pub fn matches(&self, arg: &Arg) -> (res: bool)
        ensures
            res == self.spec_matches(*arg),
    {
        match self {
            Flag::Short(short) => match arg.short {
                Some(s) => s == *short,
                None => false,
            },
            Flag::Long(long) => {
                proof {
                    vstd::utf8::encode_utf8_decode_utf8(arg.long@);
                    vstd::utf8::encode_utf8_decode_utf8(long@);
                }
                bytes_eq(arg.long.as_bytes(), long.as_bytes())
            },
        }
    }
}

/// The flags that a command line may hold, in the order in which they are
/// looked up.
pub struct Args(pub Vec<Arg>);

impl View for Args {
    type V = Seq<Arg>;

    open spec fn view(&self) -> Seq<Arg> {
        self.0@
    }
}

/// The first definition in `registry` whose short form is `short`.
pub open spec fn lookup_short_spec(registry: Seq<Arg>, short: ShortArg) -> Option<Arg>
    decreases registry.len(),
{
    if registry.len() == 0 {
        None
    } else if registry[0].short == Some(short) {
        Some(registry[0])
    } else {
        lookup_short_spec(registry.drop_first(), short)
    }
}

/// The first definition in `registry` whose long form is written `name`.
pub open spec fn lookup_long_spec(registry: Seq<Arg>, name: Seq<u8>) -> Option<Arg>
    decreases registry.len(),
{
    if registry.len() == 0 {
        None
    } else if registry[0].long_bytes() == name {
        Some(registry[0])
    } else {
        lookup_long_spec(registry.drop_first(), name)
    }
}

impl Args {
    /// Looks a short form up.
    pub fn lookup_short(&self, short: ShortArg) -> (res: Result<&Arg, ParseError>)
        ensures
            match res {
                Ok(arg) => lookup_short_spec(self@, short) == Some(*arg),
                Err(e) => lookup_short_spec(self@, short) is None
                    && e@ == (ParseFailure::UnknownShortArgument { byte: short }),
            },
    {
        let mut i: usize = 0;
        assert(self@.skip(0) =~= self@);
        while i < self.0.len()
            invariant
                i <= self.0@.len(),
                lookup_short_spec(self@, short) == lookup_short_spec(self@.skip(i as int), short),
            decreases self.0@.len() - i,
        {
            let arg = &self.0[i];
            proof {
                assert(self@.skip(i as int).drop_first() =~= self@.skip(i + 1));
            }
            match arg.short {
                Some(s) => {
                    if s == short {
                        return Ok(arg);
                    }
                },
                None => {},
            }
            i += 1;
        }
        Err(ParseError::UnknownShortArgument { byte: short })
    }

    /// Looks a long form up by the bytes that were written for it.
    pub fn lookup_long(&self, name: &[u8]) -> (res: Result<&Arg, ParseError>)
        ensures
            match res {
                Ok(arg) => lookup_long_spec(self@, name@) == Some(*arg),
                Err(e) => lookup_long_spec(self@, name@) is None
                    && e@ == (ParseFailure::UnknownArgument { name: name@ }),
            },
    {
        let mut i: usize = 0;
        assert(self@.skip(0) =~= self@);
        while i < self.0.len()
            invariant
                i <= self.0@.len(),
                lookup_long_spec(self@, name@) == lookup_long_spec(self@.skip(i as int), name@),
            decreases self.0@.len() - i,
        {
            let arg = &self.0[i];
            proof {
                assert(self@.skip(i as int).drop_first() =~= self@.skip(i + 1));
            }
            if bytes_eq(arg.long.as_bytes(), name) {
                return Ok(arg);
            }
            i += 1;
        }
        Err(ParseError::UnknownArgument { name: slice_to_vec(name) })
    }
}

/// What a parse came to, as a mathematical value.
pub open spec fn parse_view(result: Result<Matches<'_>, ParseError>) -> Result<
    MatchesView,
    ParseFailure,
> {
    match result {
        Ok(matches) => Ok(matches@),
        Err(e) => Err(e@),
    }
}

/// Splits `name=value` at the first `=`. There is no split unless the name
/// is not empty and at least one byte follows the `=`.
pub fn split_on_equal<'a>(input: &'a [u8]) -> (res: Option<(&'a [u8], &'a [u8])>)
    ensures
        match res {
            Some((before, after)) => split_on_equal_spec(input@) == Some((before@, after@)),
            None => split_on_equal_spec(input@) is None,
        },
        res matches Some((before, after)) ==> before@.len() > 0 && after@.len() > 0 && input@
            == before@ + seq![EQUALS] + after@,
{
    let mut at: usize = 0;
    while at < input.len() && input[at] != EQUALS
        invariant
            at <= input@.len(),
            forall|j: int| 0 <= j < at ==> input@[j] != EQUALS,
        decreases input@.len() - at,
    {
        at += 1;
    }
    proof {
        input@.index_of_first_ensures(EQUALS);
        if at < input@.len() {
            assert(input@[at as int] == EQUALS);
            assert(input@.contains(EQUALS));
            assert(input@.index_of_first(EQUALS) == Some(at as int));
        } else {
            assert(input@.index_of_first(EQUALS) is None);
        }
    }
    if 0 < at && at < input.len() && at + 1 < input.len() {
        let before = slice_subrange(input, 0, at);
        let after = slice_subrange(input, at + 1, input.len());
        assert(input@ =~= before@ + seq![EQUALS] + after@);
        Some((before, after))
    } else {
        None
    }
}

impl Args {
    /// Reads a long flag that was written `name`; `next` is the token after
    /// it, if any. Hands out what to record and whether `next` was taken.
    fn parse_long<'a>(&self, name: &'a [u8], next: Option<&'a [u8]>) -> (res: Result<
        ((Flag, Option<&'a [u8]>), bool),
        ParseError,
    >)
        ensures
            match res {
                Ok((entry, took)) => long_flag(self@, name@, value_view(next)) == Ok::<
                    (Occurrence, bool),
                    ParseFailure,
                >(((entry.0, value_view(entry.1)), took)),
                Err(e) => long_flag(self@, name@, value_view(next)) == Err::<
                    (Occurrence, bool),
                    ParseFailure,
                >(e@),
            },
    {
        match split_on_equal(name) {
            Some((before, after)) => {
                let arg = match self.lookup_long(before) {
                    Ok(arg) => arg,
                    Err(e) => {
                        return Err(e);
                    },
                };
                let flag = Flag::Long(arg.long);
                match arg.takes_value {
                    TakesValue::Forbidden => Err(ParseError::ForbiddenValue { flag }),
                    _ => Ok(((flag, Some(after)), false)),
                }
            },
            None => {
                let arg = match self.lookup_long(name) {
                    Ok(arg) => arg,
                    Err(e) => {
                        return Err(e);
                    },
                };
                let flag = Flag::Long(arg.long);
                match arg.takes_value {
                    TakesValue::Forbidden => Ok(((flag, None), false)),
                    TakesValue::Necessary(values) => match next {
                        Some(value) => Ok(((flag, Some(value)), true)),
                        None => Err(ParseError::NeedsValue { flag, values }),
                    },
                    TakesValue::Optional(_) => match next {
                        Some(value) => Ok(((flag, Some(value)), true)),
                        None => Ok(((flag, None), false)),
                    },
                }
            },
        }
    }

    /// Reads `letters=value` and records its flags at the end of `flags`.
    fn parse_cluster_with_value<'a>(
        &self,
        letters: &'a [u8],
        value: &'a [u8],
        flags: &mut Vec<(Flag, Option<&'a [u8]>)>,
    ) -> (res: Result<(), ParseError>)
        requires
            letters@.len() > 0,
        ensures
            match cluster_with_value(self@, letters@, value@) {
                Ok(occurrences) => res is Ok && occurrences_view(final(flags)@) == occurrences_view(
                    old(flags)@,
                ) + occurrences,
                Err(f) => res matches Err(e) && e@ == f,
            },
    {
        let ghost before = letters@.drop_last();
        let ghost recorded = occurrences_view(old(flags)@);
        let ghost mut done: Seq<Occurrence> = Seq::empty();
        let count = letters.len() - 1;
        let mut j: usize = 0;
        assert(before.skip(0) =~= before);
        assert(recorded + done =~= recorded);
        while j < count
            invariant
                j <= count,
                count + 1 == letters@.len(),
                before == letters@.drop_last(),
                occurrences_view(flags@) == recorded + done,
                match valueless(self@, before.skip(j as int)) {
                    Ok(others) => valueless(self@, before) == Ok::<Seq<Occurrence>, ParseFailure>(
                        done + others,
                    ),
                    Err(f) => valueless(self@, before) == Err::<Seq<Occurrence>, ParseFailure>(f),
                },
            decreases count - j,
        {
            let letter = letters[j];
            proof {
                assert(before.skip(j as int)[0] == letter);
                assert(before.skip(j as int).drop_first() =~= before.skip(j + 1));
            }
            let arg = match self.lookup_short(letter) {
                Ok(arg) => arg,
                Err(e) => {
                    return Err(e);
                },
            };
            let flag = Flag::Short(letter);
            match arg.takes_value {
                TakesValue::Necessary(values) => {
                    return Err(ParseError::NeedsValue { flag, values });
                },
                _ => {
                    record(flags, flag, None);
                    proof {
                        lemma_one_more(recorded, done, (flag, None), valueless(
                            self@,
                            before.skip(j + 1),
                        ));
                        done = done.push((flag, None));
                    }
                },
            }
            j += 1;
        }
        let letter = letters[count];
        proof {
            assert(before.skip(count as int) =~= Seq::<u8>::empty());
            assert(done + Seq::<Occurrence>::empty() =~= done);
            assert(letters@.last() == letter);
        }
        let arg = match self.lookup_short(letter) {
            Ok(arg) => arg,
            Err(e) => {
                return Err(e);
            },
        };
        let flag = Flag::Short(letter);
        match arg.takes_value {
            TakesValue::Forbidden => Err(ParseError::ForbiddenValue { flag }),
            _ => {
                record(flags, flag, Some(value));
                proof {
                    lemma_one_more(recorded, done, (flag, Some(value@)), Ok(Seq::empty()));
                }
                Ok(())
            },
        }
    }

    /// Reads fused short flags without `=value` and records them at the end
    /// of `flags`; `next` is the token after them, if any. Says whether
    /// `next` was taken as a value.
    fn parse_fused<'a>(
        &self,
        letters: &'a [u8],
        next: Option<&'a [u8]>,
        flags: &mut Vec<(Flag, Option<&'a [u8]>)>,
    ) -> (res: Result<bool, ParseError>)
        ensures
            match fused(self@, letters@, value_view(next)) {
                Ok((occurrences, took)) => res == Ok::<bool, ParseError>(took) && occurrences_view(
                    final(flags)@,
                ) == occurrences_view(old(flags)@) + occurrences,
                Err(f) => res matches Err(e) && e@ == f,
            },
    {
        let ghost recorded = occurrences_view(old(flags)@);
        let ghost mut done: Seq<Occurrence> = Seq::empty();
        let mut j: usize = 0;
        assert(letters@.skip(0) =~= letters@);
        assert(recorded + done =~= recorded);
        while j < letters.len()
            invariant
                j <= letters@.len(),
                recorded == occurrences_view(old(flags)@),
                occurrences_view(flags@) == recorded + done,
                match fused(self@, letters@.skip(j as int), value_view(next)) {
                    Ok((others, took)) => fused(self@, letters@, value_view(next)) == Ok::<
                        (Seq<Occurrence>, bool),
                        ParseFailure,
                    >((done + others, took)),
                    Err(f) => fused(self@, letters@, value_view(next)) == Err::<
                        (Seq<Occurrence>, bool),
                        ParseFailure,
                    >(f),
                },
            decreases letters@.len() - j,
        {
            let letter = letters[j];
            proof {
                assert(letters@.skip(j as int)[0] == letter);
                assert(letters@.skip(j as int).drop_first() =~= letters@.skip(j + 1));
            }
            let arg = match self.lookup_short(letter) {
                Ok(arg) => arg,
                Err(e) => {
                    return Err(e);
                },
            };
            let flag = Flag::Short(letter);
            let takes = match arg.takes_value {
                TakesValue::Forbidden => false,
                _ => true,
            };
            if !takes {
                record(flags, flag, None);
                proof {
                    let others = match fused(self@, letters@.skip(j + 1), value_view(next)) {
                        Ok((others, _)) => Ok(others),
                        Err(e) => Err(e),
                    };
                    lemma_one_more(recorded, done, (flag, None), others);
                    done = done.push((flag, None));
                }
                j += 1;
            } else {
                let (value, took) = if j + 1 < letters.len() {
                    (Some(slice_subrange(letters, j + 1, letters.len())), false)
                } else {
                    (next, next.is_some())
                };
                if value.is_none() {
                    match arg.takes_value {
                        TakesValue::Necessary(values) => {
                            return Err(ParseError::NeedsValue { flag, values });
                        },
                        _ => {},
                    }
                }
                record(flags, flag, value);
                proof {
                    let occurrence: Occurrence = (flag, value_view(value));
                    lemma_one_more(recorded, done, occurrence, Ok(Seq::empty()));
                    assert(done.push(occurrence) =~= done + seq![occurrence]);
                }
                return Ok(took);
            }
        }
        proof {
            assert(done + Seq::<Occurrence>::empty() =~= done);
        }
        Ok(false)
    }

    /// Reads a cluster of short flags that was written `letters` and records
    /// its flags at the end of `flags`; `next` is the token after the
    /// cluster, if any. Says whether `next` was taken as a value.
    fn parse_short<'a>(
        &self,
        letters: &'a [u8],
        next: Option<&'a [u8]>,
        flags: &mut Vec<(Flag, Option<&'a [u8]>)>,
    ) -> (res: Result<bool, ParseError>)
        ensures
            match short_cluster(self@, letters@, value_view(next)) {
                Ok((occurrences, took)) => res == Ok::<bool, ParseError>(took) && occurrences_view(
                    final(flags)@,
                ) == occurrences_view(old(flags)@) + occurrences,
                Err(f) => res matches Err(e) && e@ == f,
            },
    {
        match split_on_equal(letters) {
            Some((before, after)) => {
                proof {
                    letters@.index_of_first_ensures(EQUALS);
                }
                match self.parse_cluster_with_value(before, after, flags) {
                    Ok(()) => Ok(false),
                    Err(e) => Err(e),
                }
            },
            None => self.parse_fused(letters, next, flags),
        }
    }

    /// Parses a command line. Each token is a long flag, a cluster of short
    /// flags, the separator `--`, the value of the flag before it, or a free
    /// argument. The first flag that is not defined, lacks a value that it
    /// needs or has a value that it may not have ends the parse.
    pub fn parse<'args>(&self, inputs: &[&'args [u8]], strictness: Strictness) -> (res: Result<
        Matches<'args>,
        ParseError,
    >)
        ensures
            parse_view(res) == parse_spec(self@, tokens_view(inputs@), strictness),
    {
        let ghost tokens = tokens_view(inputs@);
        let mut parsing = true;
        let mut flags: Vec<(Flag, Option<&'args [u8]>)> = Vec::new();
        let mut frees: Vec<&'args [u8]> = Vec::new();
        let mut i: usize = 0;
        proof {
            assert(tokens.skip(0) =~= tokens);
            assert(occurrences_view(flags@) =~= Seq::<Occurrence>::empty());
            assert(tokens_view(frees@) =~= Seq::<Seq<u8>>::empty());
            lemma_preceded_by_nothing(parse_tokens(self@, tokens, true));
        }
        while i < inputs.len()
            invariant
                i <= inputs@.len(),
                tokens == tokens_view(inputs@),
                parse_tokens(self@, tokens, true) == preceded_by(
                    occurrences_view(flags@),
                    tokens_view(frees@),
                    parse_tokens(self@, tokens.skip(i as int), parsing),
                ),
            decreases inputs@.len() - i,
        {
            let token = inputs[i];
            let next = if i + 1 < inputs.len() {
                Some(inputs[i + 1])
            } else {
                None
            };
            let ghost here = tokens.skip(i as int);
            let ghost flags_before = occurrences_view(flags@);
            let ghost frees_before = tokens_view(frees@);
            proof {
                assert(here[0] == token@);
                assert(second(here) == value_view(next));
                assert(here.skip(1) =~= tokens.skip(i + 1));
                if i + 1 < inputs@.len() {
                    assert(here.skip(2) =~= tokens.skip(i + 2));
                }
            }
            if !parsing {
                let ghost earlier = frees@;
                frees.push(token);
                proof {
                    assert(tokens_view(frees@) =~= tokens_view(earlier).push(token@));
                    lemma_preceded_by_free(
                        flags_before,
                        frees_before,
                        token@,
                        parse_tokens(self@, tokens.skip(i + 1), false),
                    );
                }
                i += 1;
            } else if token.len() == 2 && token[0] == DASH && token[1] == DASH {
                parsing = false;
                i += 1;
            } else if token.len() > 2 && token[0] == DASH && token[1] == DASH {
                let name = slice_subrange(token, 2, token.len());
                let (entry, took) = match self.parse_long(name, next) {
                    Ok(read) => read,
                    Err(e) => {
                        return Err(e);
                    },
                };
                record(&mut flags, entry.0, entry.1);
                proof {
                    let occurrence: Occurrence = (entry.0, value_view(entry.1));
                    assert(flags_before.push(occurrence) =~= flags_before + seq![occurrence]);
                    lemma_preceded_by_flags(
                        flags_before,
                        frees_before,
                        seq![occurrence],
                        parse_tokens(self@, after_flag(here, took), true),
                    );
                }
                if took {
                    i += 2;
                } else {
                    i += 1;
                }
            } else if token.len() >= 2 && token[0] == DASH {
                let letters = slice_subrange(token, 1, token.len());
                let took = match self.parse_short(letters, next, &mut flags) {
                    Ok(took) => took,
                    Err(e) => {
                        return Err(e);
                    },
                };
                proof {
                    let occurrences = short_cluster(self@, letters@, value_view(next))->Ok_0.0;
                    lemma_fused_takes_next(self@, letters@, value_view(next));
                    lemma_preceded_by_flags(
                        flags_before,
                        frees_before,
                        occurrences,
                        parse_tokens(self@, after_flag(here, took), true),
                    );
                }
                if took {
                    i += 2;
                } else {
                    i += 1;
                }
            } else {
                let ghost earlier = frees@;
                frees.push(token);
                proof {
                    assert(tokens_view(frees@) =~= tokens_view(earlier).push(token@));
                    lemma_preceded_by_free(
                        flags_before,
                        frees_before,
                        token@,
                        parse_tokens(self@, tokens.skip(i + 1), true),
                    );
                }
                i += 1;
            }
        }
        proof {
            assert(occurrences_view(flags@) + Seq::<Occurrence>::empty() =~= occurrences_view(
                flags@,
            ));
            assert(tokens_view(frees@) + Seq::<Seq<u8>>::empty() =~= tokens_view(frees@));
        }
        Ok(Matches { flags: MatchedFlags::new(flags, strictness), frees })
    }
}

/// Records `flag` with `value` at the end of `flags`.
fn record<'a>(flags: &mut Vec<(Flag, Option<&'a [u8]>)>, flag: Flag, value: Option<&'a [u8]>)
    ensures
        occurrences_view(final(flags)@) == occurrences_view(old(flags)@).push(
            (flag, value_view(value)),
        ),
{
    flags.push((flag, value));
    assert(occurrences_view(flags@) =~= occurrences_view(old(flags)@).push(
        (flag, value_view(value)),
    ));
}

/// One occurrence more at the end of what is done is one occurrence more
/// at the end of what is recorded, and comes before the `others`.
proof fn lemma_one_more(
    recorded: Seq<Occurrence>,
    done: Seq<Occurrence>,
    occurrence: Occurrence,
    others: Result<Seq<Occurrence>, ParseFailure>,
)
    ensures
        (recorded + done).push(occurrence) == recorded + done.push(occurrence),
        others matches Ok(rest) ==> done.push(occurrence) + rest == done + (seq![occurrence]
            + rest),
{
    assert((recorded + done).push(occurrence) =~= recorded + done.push(occurrence));
    match others {
        Ok(rest) => {
            assert(done.push(occurrence) + rest =~= done + (seq![occurrence] + rest));
        },
        Err(_) => {},
    }
}

/// Putting nothing before a result leaves it as it is.
proof fn lemma_preceded_by_nothing(parsed: Result<Parsed, ParseFailure>)
    ensures
        preceded_by(Seq::empty(), Seq::empty(), parsed) == parsed,
{
    match parsed {
        Ok(p) => {
            assert(Seq::<Occurrence>::empty() + p.flags =~= p.flags);
            assert(Seq::<Seq<u8>>::empty() + p.frees =~= p.frees);
        },
        Err(_) => {},
    }
}

/// Putting a free argument before a result that is itself put after
/// `flags` and `frees` is putting it at the end of `frees`.
proof fn lemma_preceded_by_free(
    flags: Seq<Occurrence>,
    frees: Seq<Seq<u8>>,
    token: Seq<u8>,
    parsed: Result<Parsed, ParseFailure>,
)
    ensures
        preceded_by(flags, frees, preceded_by(Seq::empty(), seq![token], parsed)) == preceded_by(
            flags,
            frees.push(token),
            parsed,
        ),
{
    match parsed {
        Ok(p) => {
            assert(flags + (Seq::<Occurrence>::empty() + p.flags) =~= flags + p.flags);
            assert(frees + (seq![token] + p.frees) =~= frees.push(token) + p.frees);
        },
        Err(_) => {},
    }
}

/// Putting `more` flags before a result that is itself put after `flags`
/// and `frees` is putting them at the end of `flags`.
proof fn lemma_preceded_by_flags(
    flags: Seq<Occurrence>,
    frees: Seq<Seq<u8>>,
    more: Seq<Occurrence>,
    parsed: Result<Parsed, ParseFailure>,
)
    ensures
        preceded_by(flags, frees, preceded_by(more, Seq::empty(), parsed)) == preceded_by(
            flags + more,
            frees,
            parsed,
        ),
{
    match parsed {
        Ok(p) => {
            assert(flags + (more + p.flags) =~= (flags + more) + p.flags);
            assert(frees + (Seq::<Seq<u8>>::empty() + p.frees) =~= frees + p.frees);
        },
        Err(_) => {},
    }
}

/// Fused short flags take the token after them only where there is one.
proof fn lemma_fused_takes_next(registry: Seq<Arg>, letters: Seq<u8>, next: Option<Seq<u8>>)
    ensures
        short_cluster(registry, letters, next) matches Ok((_, took)) ==> (took ==> next is Some),
    decreases letters.len(),
{
    if split_on_equal_spec(letters) is None {
        lemma_fused_only_takes_some(registry, letters, next);
    }
}

/// Fused short flags take the token after them only where there is one.
proof fn lemma_fused_only_takes_some(registry: Seq<Arg>, letters: Seq<u8>, next: Option<Seq<u8>>)
    ensures
        fused(registry, letters, next) matches Ok((_, took)) ==> (took ==> next is Some),
    decreases letters.len(),
{
    if letters.len() > 0 {
        lemma_fused_only_takes_some(registry, letters.drop_first(), next);
    }
}

} // verus!
