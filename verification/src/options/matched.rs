//! The flags that a command line held, and the queries on them.

use vstd::prelude::*;
use crate::options::errors::{OptionsError, OptionsFailure};
use crate::options::parser::{Arg, Flag, Strictness};
use crate::options::query::{
    MatchedFlagsView, MatchesView, Occurrence, answer, asks, count_spec, get_spec, get_where_spec,
    has_spec, has_where_any_spec, has_where_spec, is_form_of, lemma_seen_nothing,
    lemma_seen_step, seen, theorem_given_once, theorem_last_wins, theorem_never_given,
    theorem_strict_duplicate,
};

verus! {

/// A value that the parser attached to a flag, as a mathematical value.
pub open spec fn value_view(value: Option<&[u8]>) -> Option<Seq<u8>> {
    match value {
        Some(bytes) => Some(bytes@),
        None => None,
    }
}

/// Recorded flags as mathematical values.
pub open spec fn occurrences_view(entries: Seq<(Flag, Option<&[u8]>)>) -> Seq<Occurrence> {
    Seq::new(entries.len(), |i: int| (entries[i].0, value_view(entries[i].1)))
}

/// Tokens as mathematical values.
pub open spec fn tokens_view(tokens: Seq<&[u8]>) -> Seq<Seq<u8>> {
    Seq::new(tokens.len(), |i: int| tokens[i]@)
}

/// That `predicate`, whenever it is called, returns what `meaning` says.
pub open spec fn computes<P: Fn(&Flag) -> bool>(predicate: P, meaning: spec_fn(Flag) -> bool) -> bool {
    forall|flag: Flag, verdict: bool| #[trigger]
        call_ensures(predicate, (&flag,), verdict) ==> verdict == meaning(flag)
}

/// That a query took the occurrence: it has a value where only those with
/// a value count, and `predicate` said yes to its flag.
pub open spec fn taken<P: Fn(&Flag) -> bool>(predicate: P, with_value: bool, occurrence: Occurrence) -> bool {
    (with_value ==> occurrence.1 is Some) && call_ensures(predicate, (&occurrence.0,), true)
}

/// That a query passed the occurrence over: it has no value where only
/// those with a value count, or `predicate` said no to its flag.
pub open spec fn passed_over<P: Fn(&Flag) -> bool>(
    predicate: P,
    with_value: bool,
    occurrence: Occurrence,
) -> bool {
    (with_value && occurrence.1 is None) || call_ensures(predicate, (&occurrence.0,), false)
}

/// That `place` is where a query found its answer, whatever `predicate`
/// answered. Under `ForbidRedundant` the query goes through all the
/// occurrences: it fails with the first two that it took, or finds the only
/// one that it took, or none. Under `UseLastArgument` it finds the last one
/// that it took, or none.
pub open spec fn answered<P: Fn(&Flag) -> bool>(
    view: MatchedFlagsView,
    predicate: P,
    with_value: bool,
    place: Result<Option<int>, OptionsFailure>,
) -> bool {
    match place {
        Err(failure) => {
            &&& view.strictness == Strictness::ForbidRedundant
            &&& exists|first: int, second: int|
                {
                    &&& 0 <= first < second < view.flags.len()
                    &&& taken(predicate, with_value, #[trigger] view.flags[first])
                    &&& taken(predicate, with_value, #[trigger] view.flags[second])
                    &&& forall|k: int|
                        0 <= k < second && k != first ==> passed_over(
                            predicate,
                            with_value,
                            #[trigger] view.flags[k],
                        )
                    &&& failure == OptionsFailure::Duplicate(
                        view.flags[first].0,
                        view.flags[second].0,
                    )
                }
        },
        Ok(Some(at)) => {
            &&& 0 <= at < view.flags.len()
            &&& taken(predicate, with_value, view.flags[at])
            &&& forall|k: int|
                at < k < view.flags.len() ==> passed_over(
                    predicate,
                    with_value,
                    #[trigger] view.flags[k],
                )
            &&& view.strictness == Strictness::ForbidRedundant ==> forall|k: int|
                0 <= k < at ==> passed_over(predicate, with_value, #[trigger] view.flags[k])
        },
        Ok(None) => forall|k: int|
            0 <= k < view.flags.len() ==> passed_over(
                predicate,
                with_value,
                #[trigger] view.flags[k],
            ),
    }
}

/// The occurrence at the place where a query found its answer.
pub open spec fn at_place(view: MatchedFlagsView, place: Result<Option<int>, OptionsFailure>) -> Result<
    Option<Occurrence>,
    OptionsFailure,
> {
    match place {
        Ok(Some(at)) => Ok(Some(view.flags[at])),
        Ok(None) => Ok(None),
        Err(failure) => Err(failure),
    }
}

/// Where the predicate of a query computes `meaning`, the query finds what
/// `meaning` determines.
pub proof fn theorem_answered<P: Fn(&Flag) -> bool>(
    view: MatchedFlagsView,
    predicate: P,
    with_value: bool,
    place: Result<Option<int>, OptionsFailure>,
    meaning: spec_fn(Flag) -> bool,
)
    requires
        answered(view, predicate, with_value, place),
        computes(predicate, meaning),
    ensures
        at_place(view, place) == answer(view, meaning, with_value),
{
    assert forall|k: int|
        0 <= k < view.flags.len() && taken(
            predicate,
            with_value,
            #[trigger] view.flags[k],
        ) implies asks(meaning, with_value)(view.flags[k]) by {}
    assert forall|k: int|
        0 <= k < view.flags.len() && passed_over(
            predicate,
            with_value,
            #[trigger] view.flags[k],
        ) implies !asks(meaning, with_value)(view.flags[k]) by {}
    match place {
        Err(failure) => {
            let (first, second) = choose|first: int, second: int|
                {
                    &&& 0 <= first < second < view.flags.len()
                    &&& taken(predicate, with_value, #[trigger] view.flags[first])
                    &&& taken(predicate, with_value, #[trigger] view.flags[second])
                    &&& forall|k: int|
                        0 <= k < second && k != first ==> passed_over(
                            predicate,
                            with_value,
                            #[trigger] view.flags[k],
                        )
                    &&& failure == OptionsFailure::Duplicate(
                        view.flags[first].0,
                        view.flags[second].0,
                    )
                };
            theorem_strict_duplicate(view, meaning, with_value, first, second);
        },
        Ok(Some(at)) => {
            match view.strictness {
                Strictness::ForbidRedundant => {
                    theorem_given_once(view, meaning, with_value, at);
                },
                Strictness::UseLastArgument => {
                    theorem_last_wins(view, meaning, with_value, at);
                },
            }
        },
        Ok(None) => {
            theorem_never_given(view, meaning, with_value);
        },
    }
}

/// The flags that a command line held, and how duplicates among them are
/// treated.
#[derive(Debug, PartialEq)]
pub struct MatchedFlags<'args> {
    flags: Vec<(Flag, Option<&'args [u8]>)>,
    strictness: Strictness,
}

impl<'args> View for MatchedFlags<'args> {
    type V = MatchedFlagsView;

    closed spec fn view(&self) -> MatchedFlagsView {
        MatchedFlagsView { flags: occurrences_view(self.flags@), strictness: self.strictness }
    }
}

/// What a command line held: its flags and its free arguments.
#[derive(Debug, PartialEq)]
pub struct Matches<'args> {
    /// The flags, with their values.
    pub flags: MatchedFlags<'args>,
    /// Everything that is not a flag, in the order in which it was written.
    pub frees: Vec<&'args [u8]>,
}

impl<'args> View for Matches<'args> {
    type V = MatchesView;

    open spec fn view(&self) -> MatchesView {
        MatchesView { flags: self.flags@, frees: tokens_view(self.frees@) }
    }
}

/// The place where a query found its answer, as a mathematical value.
pub open spec fn place_view(found: Result<Option<usize>, OptionsError>) -> Result<
    Option<int>,
    OptionsFailure,
> {
    match found {
        Ok(Some(at)) => Ok(Some(at as int)),
        Ok(None) => Ok(None),
        Err(e) => Err(e@),
    }
}

impl<'args> MatchedFlags<'args> {
    /// Holds `flags`, in that order, to be queried under `strictness`.
    pub fn new(flags: Vec<(Flag, Option<&'args [u8]>)>, strictness: Strictness) -> (res: Self)
        ensures
            res@ == (MatchedFlagsView { flags: occurrences_view(flags@), strictness }),
    {
        MatchedFlags { flags, strictness }
    }

    /// Whether duplicates are an error.
    fn is_strict(&self) -> (res: bool)
        ensures
            res == (self@.strictness == Strictness::ForbidRedundant),
    {
        self.strictness == Strictness::ForbidRedundant
    }

    /// Whether a query takes the occurrence at `at`: whether that has a
    /// value, where only those with a value count, and `predicate` says yes
    /// to its flag.
    fn takes<P: Fn(&Flag) -> bool>(&self, predicate: &P, with_value: bool, at: usize) -> (res: bool)
        requires
            at < self@.flags.len(),
            call_requires(*predicate, (&self@.flags[at as int].0,)),
        ensures
            res ==> taken(*predicate, with_value, self@.flags[at as int]),
            !res ==> passed_over(*predicate, with_value, self@.flags[at as int]),
    {
        let entry = &self.flags[at];
        assert(self@.flags[at as int] == (entry.0, value_view(entry.1)));
        if with_value && entry.1.is_none() {
            false
        } else {
            predicate(&entry.0)
        }
    }

    /// The place where a query finds its answer.
    fn find<P: Fn(&Flag) -> bool>(&self, predicate: P, with_value: bool) -> (res: Result<
        Option<usize>,
        OptionsError,
    >)
        requires
            forall|i: int|
                0 <= i < self@.flags.len() ==> call_requires(predicate, (&#[trigger] self@.flags[i].0,)),
        ensures
            answered(self@, predicate, with_value, place_view(res)),
    {
        if self.is_strict() {
            let mut first: Option<usize> = None;
            let mut i: usize = 0;
            while i < self.flags.len()
                invariant
                    i <= self.flags@.len(),
                    self@.flags.len() == self.flags@.len(),
                    self@.strictness == Strictness::ForbidRedundant,
                    forall|j: int|
                        0 <= j < self@.flags.len() ==> call_requires(
                            predicate,
                            (&#[trigger] self@.flags[j].0,),
                        ),
                    first matches Some(at) ==> at < i && taken(
                        predicate,
                        with_value,
                        self@.flags[at as int],
                    ),
                    forall|k: int|
                        0 <= k < i && first != Some(k as usize) ==> passed_over(
                            predicate,
                            with_value,
                            #[trigger] self@.flags[k],
                        ),
                decreases self.flags@.len() - i,
            {
                if self.takes(&predicate, with_value, i) {
                    match first {
                        Some(at) => {
                            assert(self@.flags[at as int].0 == self.flags@[at as int].0);
                            assert(self@.flags[i as int].0 == self.flags@[i as int].0);
                            return Err(
                                OptionsError::Duplicate(self.flags[at].0, self.flags[i].0),
                            );
                        },
                        None => {
                            first = Some(i);
                        },
                    }
                }
                i += 1;
            }
            Ok(first)
        } else {
            let mut i: usize = self.flags.len();
            while i > 0
                invariant
                    i <= self.flags@.len(),
                    self@.flags.len() == self.flags@.len(),
                    self@.strictness == Strictness::UseLastArgument,
                    forall|j: int|
                        0 <= j < self@.flags.len() ==> call_requires(
                            predicate,
                            (&#[trigger] self@.flags[j].0,),
                        ),
                    forall|k: int|
                        i <= k < self@.flags.len() ==> passed_over(
                            predicate,
                            with_value,
                            #[trigger] self@.flags[k],
                        ),
                decreases i,
            {
                i -= 1;
                if self.takes(&predicate, with_value, i) {
                    return Ok(Some(i));
                }
            }
            Ok(None)
        }
    }

    /// Whether the flag `arg` was given. Under `ForbidRedundant` it is an
    /// error if it was given more than once.
    pub fn has(&self, arg: &Arg) -> (res: Result<bool, OptionsError>)
        ensures
            match has_spec(self@, *arg) {
                Ok(given) => res matches Ok(found) && found == given,
                Err(e) => res matches Err(x) && x@ == e,
            },
    {
        let predicate = |flag: &Flag| -> (verdict: bool)
            ensures
                verdict == flag.spec_matches(*arg),
            { flag.matches(arg) };
        assert(computes(predicate, is_form_of(*arg)));
        match self.has_where(predicate) {
            Ok(found) => Ok(found.is_some()),
            Err(e) => Err(e),
        }
    }

    /// The flag of the occurrence whose flag satisfies `predicate`: under
    /// `ForbidRedundant` the only such occurrence, and an error that names
    /// the first two where there are more; under `UseLastArgument` the last.
    pub fn has_where<P: Fn(&Flag) -> bool>(&self, predicate: P) -> (res: Result<
        Option<&Flag>,
        OptionsError,
    >)
        requires
            forall|i: int|
                0 <= i < self@.flags.len() ==> call_requires(predicate, (&#[trigger] self@.flags[i].0,)),
        ensures
            exists|place: Result<Option<int>, OptionsFailure>|
                #![trigger answered(self@, predicate, false, place)]
                answered(self@, predicate, false, place) && match at_place(self@, place) {
                    Ok(Some(occurrence)) => res matches Ok(Some(found)) && *found == occurrence.0,
                    Ok(None) => res matches Ok(None),
                    Err(e) => res matches Err(x) && x@ == e,
                },
            forall|meaning: spec_fn(Flag) -> bool|
                #![trigger computes(predicate, meaning)]
                computes(predicate, meaning) ==> match has_where_spec(self@, meaning) {
                    Ok(Some(flag)) => res matches Ok(Some(found)) && *found == flag,
                    Ok(None) => res matches Ok(None),
                    Err(e) => res matches Err(x) && x@ == e,
                },
    {
        let found = self.find(predicate, false);
        proof {
            assert forall|meaning: spec_fn(Flag) -> bool|
                #![trigger computes(predicate, meaning)]
                computes(predicate, meaning) implies at_place(self@, place_view(found)) == answer(
                self@,
                meaning,
                false,
            ) by {
                theorem_answered(self@, predicate, false, place_view(found), meaning);
            }
        }
        match found {
            Ok(Some(at)) => {
                assert(self@.flags[at as int].0 == self.flags@[at as int].0);
                Ok(Some(&self.flags[at].0))
            },
            Ok(None) => Ok(None),
            Err(e) => Err(e),
        }
    }

    /// The flag of the last occurrence whose flag satisfies `predicate`,
    /// whatever the strictness.
    pub fn has_where_any<P: Fn(&Flag) -> bool>(&self, predicate: P) -> (res: Option<&Flag>)
        requires
            forall|i: int|
                0 <= i < self@.flags.len() ==> call_requires(predicate, (&#[trigger] self@.flags[i].0,)),
        ensures
            match res {
                Some(found) => exists|at: int|
                    {
                        &&& 0 <= at < self@.flags.len()
                        &&& (#[trigger] self@.flags[at]).0 == *found
                        &&& taken(predicate, false, self@.flags[at])
                        &&& forall|k: int|
                            at < k < self@.flags.len() ==> passed_over(
                                predicate,
                                false,
                                #[trigger] self@.flags[k],
                            )
                    },
                None => forall|k: int|
                    0 <= k < self@.flags.len() ==> passed_over(
                        predicate,
                        false,
                        #[trigger] self@.flags[k],
                    ),
            },
            forall|meaning: spec_fn(Flag) -> bool|
                #![trigger computes(predicate, meaning)]
                computes(predicate, meaning) ==> match has_where_any_spec(self@, meaning) {
                    Some(flag) => res matches Some(found) && *found == flag,
                    None => res is None,
                },
    {
        let mut i: usize = self.flags.len();
        while i > 0
            invariant
                i <= self.flags@.len(),
                self@.flags.len() == self.flags@.len(),
                forall|j: int|
                    0 <= j < self@.flags.len() ==> call_requires(
                        predicate,
                        (&#[trigger] self@.flags[j].0,),
                    ),
                forall|k: int|
                    i <= k < self@.flags.len() ==> passed_over(
                        predicate,
                        false,
                        #[trigger] self@.flags[k],
                    ),
            decreases i,
        {
            i -= 1;
            if self.takes(&predicate, false, i) {
                proof {
                    let view = MatchedFlagsView {
                        flags: self@.flags,
                        strictness: Strictness::UseLastArgument,
                    };
                    assert(self@.flags[i as int].0 == self.flags@[i as int].0);
                    assert forall|meaning: spec_fn(Flag) -> bool|
                        #![trigger computes(predicate, meaning)]
                        computes(predicate, meaning) implies has_where_any_spec(self@, meaning)
                        == Some(self@.flags[i as int].0) by {
                        theorem_answered(view, predicate, false, Ok(Some(i as int)), meaning);
                    }
                }
                return Some(&self.flags[i].0);
            }
        }
        proof {
            let view = MatchedFlagsView {
                flags: self@.flags,
                strictness: Strictness::UseLastArgument,
            };
            assert forall|meaning: spec_fn(Flag) -> bool|
                #![trigger computes(predicate, meaning)]
                computes(predicate, meaning) implies has_where_any_spec(self@, meaning)
                is None by {
                theorem_answered(view, predicate, false, Ok(None), meaning);
            }
        }
        None
    }

    /// The value that the flag `arg` was given. Occurrences without a value
    /// do not count. Under `ForbidRedundant` it is an error if more than one
    /// occurrence has a value; under `UseLastArgument` the last one counts.
    pub fn get(&self, arg: &Arg) -> (res: Result<Option<&'args [u8]>, OptionsError>)
        ensures
            match get_spec(self@, *arg) {
                Ok(value) => res matches Ok(found) && value_view(found) == value,
                Err(e) => res matches Err(x) && x@ == e,
            },
    {
        let predicate = |flag: &Flag| -> (verdict: bool)
            ensures
                verdict == flag.spec_matches(*arg),
            { flag.matches(arg) };
        assert(computes(predicate, is_form_of(*arg)));
        self.get_where(predicate)
    }

    /// The value of the occurrence that has one and whose flag satisfies
    /// `predicate`: under `ForbidRedundant` the only such occurrence, and
    /// an error that names the first two where there are more; under
    /// `UseLastArgument` the last.
    pub fn get_where<P: Fn(&Flag) -> bool>(&self, predicate: P) -> (res: Result<
        Option<&'args [u8]>,
        OptionsError,
    >)
        requires
            forall|i: int|
                0 <= i < self@.flags.len() ==> call_requires(predicate, (&#[trigger] self@.flags[i].0,)),
        ensures
            exists|place: Result<Option<int>, OptionsFailure>|
                #![trigger answered(self@, predicate, true, place)]
                answered(self@, predicate, true, place) && match at_place(self@, place) {
                    Ok(Some(occurrence)) => res matches Ok(found) && value_view(found)
                        == occurrence.1,
                    Ok(None) => res matches Ok(None),
                    Err(e) => res matches Err(x) && x@ == e,
                },
            forall|meaning: spec_fn(Flag) -> bool|
                #![trigger computes(predicate, meaning)]
                computes(predicate, meaning) ==> match get_where_spec(self@, meaning) {
                    Ok(value) => res matches Ok(found) && value_view(found) == value,
                    Err(e) => res matches Err(x) && x@ == e,
                },
    {
        let found = self.find(predicate, true);
        proof {
            assert forall|meaning: spec_fn(Flag) -> bool|
                #![trigger computes(predicate, meaning)]
                computes(predicate, meaning) implies at_place(self@, place_view(found)) == answer(
                self@,
                meaning,
                true,
            ) by {
                theorem_answered(self@, predicate, true, place_view(found), meaning);
            }
        }
        match found {
            Ok(Some(at)) => {
                assert(self@.flags[at as int].1 == value_view(self.flags@[at as int].1));
                Ok(self.flags[at].1)
            },
            Ok(None) => Ok(None),
            Err(e) => Err(e),
        }
    }

    /// How often the flag `arg` was given, whatever the strictness.
    pub fn count(&self, arg: &Arg) -> (res: usize)
        ensures
            res == count_spec(self@, *arg),
    {
        let mut count: usize = 0;
        let mut i: usize = 0;
        proof {
            assert(self@.flags.take(0) =~= Seq::<Occurrence>::empty());
            lemma_seen_nothing(is_form_of(*arg), false);
        }
        while i < self.flags.len()
            invariant
                i <= self.flags@.len(),
                self@.flags.len() == self.flags@.len(),
                count <= i,
                count == seen(self@.flags.take(i as int), is_form_of(*arg), false).len(),
            decreases self.flags@.len() - i,
        {
            let entry = &self.flags[i];
            assert(self@.flags[i as int] == (entry.0, value_view(entry.1)));
            proof {
                lemma_seen_step(self@.flags, is_form_of(*arg), false, i as int);
            }
            if entry.0.matches(arg) {
                count += 1;
            }
            i += 1;
        }
        proof {
            assert(self@.flags.take(i as int) =~= self@.flags);
        }
        count
    }
}

} // verus!
