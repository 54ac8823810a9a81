//! The flags that the search understands.

use vstd::prelude::*;
use crate::options::parser::{Arg, Args, TakesValue};
use crate::options::theorems::distinct_forms;

verus! {

/// `-v`, `--version`: show the version.
pub open spec fn version_arg() -> Arg {
    Arg { short: Some(118u8), long: "version", takes_value: TakesValue::Forbidden }
}

/// `-h`, `--help`: show the usage text.
pub open spec fn help_arg() -> Arg {
    Arg { short: Some(104u8), long: "help", takes_value: TakesValue::Forbidden }
}

/// `-n`, `--name`: the regular expression that a file's name must match.
pub open spec fn name_arg() -> Arg {
    Arg { short: Some(110u8), long: "name", takes_value: TakesValue::Necessary(None) }
}

/// `-s`, `--size`: the size expression that a file's size must meet.
pub open spec fn size_arg() -> Arg {
    Arg { short: Some(115u8), long: "size", takes_value: TakesValue::Necessary(None) }
}

/// `--include-dirs`: show directories too.
pub open spec fn include_dirs_arg() -> Arg {
    Arg { short: None, long: "include-dirs", takes_value: TakesValue::Forbidden }
}

/// `-d`, `--only-dirs`: show directories only.
pub open spec fn only_dirs_arg() -> Arg {
    Arg { short: Some(100u8), long: "only-dirs", takes_value: TakesValue::Forbidden }
}

/// The flags that the command line of the search may hold.
pub open spec fn all_args_spec() -> Seq<Arg> {
    seq![version_arg(), help_arg(), name_arg(), include_dirs_arg(), only_dirs_arg()]
}

/// `-v`, `--version`: show the version.
#[verifier::when_used_as_spec(version_arg)]
pub fn version() -> (res: Arg)
    ensures
        res == version_arg(),
{
    Arg { short: Some(118u8), long: "version", takes_value: TakesValue::Forbidden }
}

/// `-h`, `--help`: show the usage text.
#[verifier::when_used_as_spec(help_arg)]
pub fn help() -> (res: Arg)
    ensures
        res == help_arg(),
{
    Arg { short: Some(104u8), long: "help", takes_value: TakesValue::Forbidden }
}

/// `-n`, `--name`: the regular expression that a file's name must match.
#[verifier::when_used_as_spec(name_arg)]
pub fn name() -> (res: Arg)
    ensures
        res == name_arg(),
{
    Arg { short: Some(110u8), long: "name", takes_value: TakesValue::Necessary(None) }
}

/// `-s`, `--size`: the size expression that a file's size must meet.
#[verifier::when_used_as_spec(size_arg)]
pub fn size() -> (res: Arg)
    ensures
        res == size_arg(),
{
    Arg { short: Some(115u8), long: "size", takes_value: TakesValue::Necessary(None) }
}

/// `--include-dirs`: show directories too.
#[verifier::when_used_as_spec(include_dirs_arg)]
pub fn include_dirs() -> (res: Arg)
    ensures
        res == include_dirs_arg(),
{
    Arg { short: None, long: "include-dirs", takes_value: TakesValue::Forbidden }
}

/// `-d`, `--only-dirs`: show directories only.
#[verifier::when_used_as_spec(only_dirs_arg)]
pub fn only_dirs() -> (res: Arg)
    ensures
        res == only_dirs_arg(),
{
    Arg { short: Some(100u8), long: "only-dirs", takes_value: TakesValue::Forbidden }
}

/// The flags of the search share no form.
pub proof fn theorem_all_args_distinct()
    ensures
        distinct_forms(all_args_spec()),
{
    reveal_strlit("version");
    reveal_strlit("help");
    reveal_strlit("name");
    reveal_strlit("include-dirs");
    reveal_strlit("only-dirs");
    let registry = all_args_spec();
    assert(registry[0].long@.len() == 7);
    assert(registry[1].long@.len() == 4 && registry[1].long@[0] == 'h');
    assert(registry[2].long@.len() == 4 && registry[2].long@[0] == 'n');
    assert(registry[3].long@.len() == 12);
    assert(registry[4].long@.len() == 9);
}

/// The flags that the command line of the search may hold.
pub fn all_args() -> (res: Args)
    ensures
        res@ == all_args_spec(),
{
    let mut args: Vec<Arg> = Vec::new();
    args.push(version());
    args.push(help());
    args.push(name());
    args.push(include_dirs());
    args.push(only_dirs());
    assert(args@ =~= all_args_spec());
    Args(args)
}

} // verus!
