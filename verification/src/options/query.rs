//! What the queries on matched flags answer, as mathematics.

use vstd::prelude::*;
use crate::options::errors::OptionsFailure;
use crate::options::parser::{Arg, Flag, Strictness};

verus! {

/// A flag as it occurred, with the value that was attached to it, if any.
pub type Occurrence = (Flag, Option<Seq<u8>>);

/// What the query layer holds: the occurrences in the order in which they
/// were written, and how duplicates are treated.
pub struct MatchedFlagsView {
    pub flags: Seq<Occurrence>,
    pub strictness: Strictness,
}

/// What a successful parse hands out.
pub struct MatchesView {
    pub flags: MatchedFlagsView,
    pub frees: Seq<Seq<u8>>,
}

/// The question whether an occurrence is a form of the flag `arg`.
pub open spec fn is_form_of(arg: Arg) -> spec_fn(Flag) -> bool {
    |flag: Flag| flag.spec_matches(arg)
}

/// The question that a query asks of each occurrence: whether its flag
/// satisfies `predicate` and, where `with_value`, whether it has a value.
pub open spec fn asks(predicate: spec_fn(Flag) -> bool, with_value: bool) -> spec_fn(
    Occurrence,
) -> bool {
    |occurrence: Occurrence| (with_value ==> occurrence.1 is Some) && predicate(occurrence.0)
}

/// The occurrences that a query sees, in the order in which they were
/// written.
pub open spec fn seen(flags: Seq<Occurrence>, predicate: spec_fn(Flag) -> bool, with_value: bool) -> Seq<
    Occurrence,
> {
    flags.filter(asks(predicate, with_value))
}

/// The occurrence that answers a query: under `ForbidRedundant` the only
/// one that the query sees, and a failure that names the first two where it
/// sees more than one; under `UseLastArgument` the last one that it sees.
pub open spec fn answer(view: MatchedFlagsView, predicate: spec_fn(Flag) -> bool, with_value: bool) -> Result<
    Option<Occurrence>,
    OptionsFailure,
> {
    let found = seen(view.flags, predicate, with_value);
    match view.strictness {
        Strictness::ForbidRedundant => if found.len() >= 2 {
            Err(OptionsFailure::Duplicate(found[0].0, found[1].0))
        } else if found.len() == 1 {
            Ok(Some(found[0]))
        } else {
            Ok(None)
        },
        Strictness::UseLastArgument => if found.len() > 0 {
            Ok(Some(found.last()))
        } else {
            Ok(None)
        },
    }
}

/// The flag that `has_where` finds.
pub open spec fn has_where_spec(view: MatchedFlagsView, predicate: spec_fn(Flag) -> bool) -> Result<
    Option<Flag>,
    OptionsFailure,
> {
    match answer(view, predicate, false) {
        Ok(Some(occurrence)) => Ok(Some(occurrence.0)),
        Ok(None) => Ok(None),
        Err(e) => Err(e),
    }
}

/// The flag that `has_where_any` finds: that of the last occurrence whose
/// flag satisfies `predicate`.
pub open spec fn has_where_any_spec(view: MatchedFlagsView, predicate: spec_fn(Flag) -> bool) -> Option<
    Flag,
> {
    let found = seen(view.flags, predicate, false);
    if found.len() > 0 {
        Some(found.last().0)
    } else {
        None
    }
}

/// The value that `get_where` finds. Occurrences without a value are not
/// seen.
pub open spec fn get_where_spec(view: MatchedFlagsView, predicate: spec_fn(Flag) -> bool) -> Result<
    Option<Seq<u8>>,
    OptionsFailure,
> {
    match answer(view, predicate, true) {
        Ok(Some(occurrence)) => Ok(occurrence.1),
        Ok(None) => Ok(None),
        Err(e) => Err(e),
    }
}

/// Whether the flag `arg` was given.
pub open spec fn has_spec(view: MatchedFlagsView, arg: Arg) -> Result<bool, OptionsFailure> {
    match has_where_spec(view, is_form_of(arg)) {
        Ok(found) => Ok(found is Some),
        Err(e) => Err(e),
    }
}

/// The value that the flag `arg` was given.
pub open spec fn get_spec(view: MatchedFlagsView, arg: Arg) -> Result<
    Option<Seq<u8>>,
    OptionsFailure,
> {
    get_where_spec(view, is_form_of(arg))
}

/// How often the flag `arg` was given.
pub open spec fn count_spec(view: MatchedFlagsView, arg: Arg) -> nat {
    seen(view.flags, is_form_of(arg), false).len()
}

/// What is seen among the first `n + 1` occurrences is what is seen among
/// the first `n`, and the one after them where the query sees it.
pub proof fn lemma_seen_step(
    flags: Seq<Occurrence>,
    predicate: spec_fn(Flag) -> bool,
    with_value: bool,
    n: int,
)
    requires
        0 <= n < flags.len(),
    ensures
        seen(flags.take(n + 1), predicate, with_value) == if asks(predicate, with_value)(flags[n]) {
            seen(flags.take(n), predicate, with_value).push(flags[n])
        } else {
            seen(flags.take(n), predicate, with_value)
        },
{
    reveal(Seq::filter);
    assert(flags.take(n + 1).drop_last() =~= flags.take(n));
    assert(flags.take(n + 1).last() == flags[n]);
}

/// Among no occurrences nothing is seen.
pub proof fn lemma_seen_nothing(predicate: spec_fn(Flag) -> bool, with_value: bool)
    ensures
        seen(Seq::<Occurrence>::empty(), predicate, with_value) == Seq::<Occurrence>::empty(),
{
    reveal(Seq::filter);
}

/// Where the query sees the occurrence at `at` and none after it, that one
/// is the last that it sees.
pub proof fn lemma_seen_last(
    flags: Seq<Occurrence>,
    predicate: spec_fn(Flag) -> bool,
    with_value: bool,
    at: int,
)
    requires
        0 <= at < flags.len(),
        asks(predicate, with_value)(flags[at]),
        forall|k: int| at < k < flags.len() ==> !asks(predicate, with_value)(#[trigger] flags[k]),
    ensures
        seen(flags, predicate, with_value).len() > 0,
        seen(flags, predicate, with_value).last() == flags[at],
    decreases flags.len(),
{
    reveal(Seq::filter);
    if at + 1 < flags.len() {
        assert(!asks(predicate, with_value)(flags[flags.len() - 1]));
        let shorter = flags.drop_last();
        assert forall|k: int| at < k < shorter.len() implies !asks(predicate, with_value)(
            #[trigger] shorter[k],
        ) by {
            assert(shorter[k] == flags[k]);
        }
        lemma_seen_last(shorter, predicate, with_value, at);
    }
}

/// Where the query sees no occurrence from `from` on, it sees what it sees
/// among those before `from`.
pub proof fn lemma_seen_none_after(
    flags: Seq<Occurrence>,
    predicate: spec_fn(Flag) -> bool,
    with_value: bool,
    from: int,
)
    requires
        0 <= from <= flags.len(),
        forall|k: int| from <= k < flags.len() ==> !asks(predicate, with_value)(#[trigger] flags[k]),
    ensures
        seen(flags, predicate, with_value) == seen(flags.take(from), predicate, with_value),
    decreases flags.len() - from,
{
    if from == flags.len() {
        assert(flags.take(from) =~= flags);
    } else {
        let shorter = flags.drop_last();
        reveal(Seq::filter);
        assert(!asks(predicate, with_value)(flags[flags.len() - 1]));
        assert(seen(flags, predicate, with_value) == seen(shorter, predicate, with_value));
        assert forall|k: int| from <= k < shorter.len() implies !asks(predicate, with_value)(
            #[trigger] shorter[k],
        ) by {
            assert(shorter[k] == flags[k]);
        }
        lemma_seen_none_after(shorter, predicate, with_value, from);
        assert(shorter.take(from) =~= flags.take(from));
    }
}

/// Where the query sees no occurrence at all, nothing answers it.
pub proof fn theorem_never_given(
    view: MatchedFlagsView,
    predicate: spec_fn(Flag) -> bool,
    with_value: bool,
)
    requires
        forall|k: int|
            0 <= k < view.flags.len() ==> !asks(predicate, with_value)(#[trigger] view.flags[k]),
    ensures
        answer(view, predicate, with_value) == Ok::<Option<Occurrence>, OptionsFailure>(None),
{
    lemma_seen_none_after(view.flags, predicate, with_value, 0);
    assert(view.flags.take(0) =~= Seq::<Occurrence>::empty());
    lemma_seen_nothing(predicate, with_value);
}

/// Where the query sees the occurrence at `at` and no other, that one
/// answers it, whatever the strictness.
pub proof fn theorem_given_once(
    view: MatchedFlagsView,
    predicate: spec_fn(Flag) -> bool,
    with_value: bool,
    at: int,
)
    requires
        0 <= at < view.flags.len(),
        asks(predicate, with_value)(view.flags[at]),
        forall|k: int|
            0 <= k < view.flags.len() && k != at ==> !asks(predicate, with_value)(
                #[trigger] view.flags[k],
            ),
    ensures
        answer(view, predicate, with_value) == Ok::<Option<Occurrence>, OptionsFailure>(
            Some(view.flags[at]),
        ),
{
    lemma_seen_first(view.flags, predicate, with_value, at);
    lemma_seen_none_after(view.flags, predicate, with_value, at + 1);
}

/// Under `UseLastArgument` the last occurrence that the query sees answers
/// it, however many it sees before that one.
pub proof fn theorem_last_wins(
    view: MatchedFlagsView,
    predicate: spec_fn(Flag) -> bool,
    with_value: bool,
    last: int,
)
    requires
        view.strictness == Strictness::UseLastArgument,
        0 <= last < view.flags.len(),
        asks(predicate, with_value)(view.flags[last]),
        forall|k: int|
            last < k < view.flags.len() ==> !asks(predicate, with_value)(#[trigger] view.flags[k]),
    ensures
        answer(view, predicate, with_value) == Ok::<Option<Occurrence>, OptionsFailure>(
            Some(view.flags[last]),
        ),
{
    lemma_seen_last(view.flags, predicate, with_value, last);
}

/// Under `ForbidRedundant` a query that sees two occurrences fails, and the
/// failure names the first two that it sees, in their order.
pub proof fn theorem_strict_duplicate(
    view: MatchedFlagsView,
    predicate: spec_fn(Flag) -> bool,
    with_value: bool,
    first: int,
    second: int,
)
    requires
        view.strictness == Strictness::ForbidRedundant,
        0 <= first < second < view.flags.len(),
        asks(predicate, with_value)(view.flags[first]),
        asks(predicate, with_value)(view.flags[second]),
        forall|k: int|
            0 <= k < second && k != first ==> !asks(predicate, with_value)(
                #[trigger] view.flags[k],
            ),
    ensures
        answer(view, predicate, with_value) == Err::<Option<Occurrence>, OptionsFailure>(
            OptionsFailure::Duplicate(view.flags[first].0, view.flags[second].0),
        ),
{
    lemma_seen_first_two(view.flags, predicate, with_value, first, second);
}

/// A flag that was given twice: under `ForbidRedundant` asking for it
/// fails with the two occurrences, under `UseLastArgument` it is found.
pub proof fn theorem_has_given_twice(view: MatchedFlagsView, arg: Arg, first: int, second: int)
    requires
        0 <= first < second < view.flags.len(),
        view.flags[first].0.spec_matches(arg),
        view.flags[second].0.spec_matches(arg),
        forall|k: int|
            0 <= k < second && k != first ==> !(#[trigger] view.flags[k]).0.spec_matches(arg),
    ensures
        view.strictness == Strictness::ForbidRedundant ==> has_spec(view, arg) == Err::<
            bool,
            OptionsFailure,
        >(OptionsFailure::Duplicate(view.flags[first].0, view.flags[second].0)),
        view.strictness == Strictness::UseLastArgument ==> has_spec(view, arg) == Ok::<
            bool,
            OptionsFailure,
        >(true),
{
    match view.strictness {
        Strictness::ForbidRedundant => {
            theorem_strict_duplicate(view, is_form_of(arg), false, first, second);
        },
        Strictness::UseLastArgument => {
            lemma_seen_some(view.flags, is_form_of(arg), false, first);
        },
    }
}

/// A flag that was given a value twice: under `ForbidRedundant` asking for
/// its value fails with the two occurrences, under `UseLastArgument` the
/// value of the later one is found.
pub proof fn theorem_get_given_twice(view: MatchedFlagsView, arg: Arg, first: int, second: int)
    requires
        0 <= first < second < view.flags.len(),
        view.flags[first].0.spec_matches(arg) && view.flags[first].1 is Some,
        view.flags[second].0.spec_matches(arg) && view.flags[second].1 is Some,
        forall|k: int|
            0 <= k < view.flags.len() && k != first && k != second ==> !((
            #[trigger] view.flags[k]).0.spec_matches(arg) && view.flags[k].1 is Some),
    ensures
        view.strictness == Strictness::ForbidRedundant ==> get_spec(view, arg) == Err::<
            Option<Seq<u8>>,
            OptionsFailure,
        >(OptionsFailure::Duplicate(view.flags[first].0, view.flags[second].0)),
        view.strictness == Strictness::UseLastArgument ==> get_spec(view, arg) == Ok::<
            Option<Seq<u8>>,
            OptionsFailure,
        >(view.flags[second].1),
{
    match view.strictness {
        Strictness::ForbidRedundant => {
            theorem_strict_duplicate(view, is_form_of(arg), true, first, second);
        },
        Strictness::UseLastArgument => {
            theorem_last_wins(view, is_form_of(arg), true, second);
        },
    }
}

/// Asking whether a flag was given agrees with counting it: under
/// `UseLastArgument` it was given exactly where the count is not zero;
/// under `ForbidRedundant` asking fails exactly where the count is two or
/// more, and else says whether the count is one.
pub proof fn theorem_has_agrees_with_count(view: MatchedFlagsView, arg: Arg)
    ensures
        view.strictness == Strictness::UseLastArgument ==> has_spec(view, arg) == Ok::<
            bool,
            OptionsFailure,
        >(count_spec(view, arg) > 0),
        view.strictness == Strictness::ForbidRedundant ==> (has_spec(view, arg) is Err
            <==> count_spec(view, arg) >= 2),
        view.strictness == Strictness::ForbidRedundant && count_spec(view, arg) < 2 ==> has_spec(
            view,
            arg,
        ) == Ok::<bool, OptionsFailure>(count_spec(view, arg) == 1),
{
}

/// Where the query sees the occurrence at `at`, it sees something.
pub proof fn lemma_seen_some(
    flags: Seq<Occurrence>,
    predicate: spec_fn(Flag) -> bool,
    with_value: bool,
    at: int,
)
    requires
        0 <= at < flags.len(),
        asks(predicate, with_value)(flags[at]),
    ensures
        seen(flags, predicate, with_value).len() > 0,
    decreases flags.len(),
{
    reveal(Seq::filter);
    if at + 1 < flags.len() {
        lemma_seen_some(flags.drop_last(), predicate, with_value, at);
    }
}

/// Where the query sees the occurrence at `at` and none before it, that one
/// is the first that it sees, and among the occurrences up to it the only
/// one.
pub proof fn lemma_seen_first(
    flags: Seq<Occurrence>,
    predicate: spec_fn(Flag) -> bool,
    with_value: bool,
    at: int,
)
    requires
        0 <= at < flags.len(),
        asks(predicate, with_value)(flags[at]),
        forall|k: int| 0 <= k < at ==> !asks(predicate, with_value)(#[trigger] flags[k]),
    ensures
        seen(flags.take(at + 1), predicate, with_value) == seq![flags[at]],
{
    let before = flags.take(at);
    assert forall|k: int| 0 <= k < before.len() implies !asks(predicate, with_value)(
        #[trigger] before[k],
    ) by {
        assert(before[k] == flags[k]);
    }
    lemma_seen_none_after(before, predicate, with_value, 0);
    assert(before.take(0) =~= Seq::<Occurrence>::empty());
    lemma_seen_nothing(predicate, with_value);
    lemma_seen_step(flags, predicate, with_value, at);
    assert(Seq::<Occurrence>::empty().push(flags[at]) =~= seq![flags[at]]);
}

/// Where the query sees the occurrences at `first` and `second` and no
/// other before `second`, these are the first two that it sees.
pub proof fn lemma_seen_first_two(
    flags: Seq<Occurrence>,
    predicate: spec_fn(Flag) -> bool,
    with_value: bool,
    first: int,
    second: int,
)
    requires
        0 <= first < second < flags.len(),
        asks(predicate, with_value)(flags[first]),
        asks(predicate, with_value)(flags[second]),
        forall|k: int|
            0 <= k < second && k != first ==> !asks(predicate, with_value)(#[trigger] flags[k]),
    ensures
        seen(flags, predicate, with_value).len() >= 2,
        seen(flags, predicate, with_value)[0] == flags[first],
        seen(flags, predicate, with_value)[1] == flags[second],
{
    let upto = flags.take(second);
    assert forall|k: int| first + 1 <= k < upto.len() implies !asks(predicate, with_value)(
        #[trigger] upto[k],
    ) by {
        assert(upto[k] == flags[k]);
    }
    assert forall|k: int| 0 <= k < first implies !asks(predicate, with_value)(
        #[trigger] upto[k],
    ) by {
        assert(upto[k] == flags[k]);
    }
    assert(upto[first] == flags[first]);
    lemma_seen_first(upto, predicate, with_value, first);
    lemma_seen_none_after(upto, predicate, with_value, first + 1);
    assert(seen(upto, predicate, with_value) == seq![flags[first]]);
    lemma_seen_step(flags, predicate, with_value, second);
    let both = seen(flags.take(second + 1), predicate, with_value);
    assert(both == seq![flags[first]].push(flags[second]));
    assert(flags.take(second + 1) + flags.skip(second + 1) =~= flags);
    Seq::filter_distributes_over_add(
        flags.take(second + 1),
        flags.skip(second + 1),
        asks(predicate, with_value),
    );
}

} // verus!
