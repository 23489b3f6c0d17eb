//! The `rx` front end: `rx quickstart` prints a usage guide, anything else
//! runs `ir tool rx` with the same arguments.
use vstd::prelude::*;

use crate::paths::{join_path, joined_path};
use crate::rig::rig_client::texts;
use crate::text::text_eq;

verus! {

/// What `rx` does with its arguments.
#[derive(Debug)]
pub enum RxAction {
    /// `rx quickstart`, with the arguments after `quickstart`.
    Quickstart(Vec<String>),
    /// Run `ir` with these arguments.
    Forward(Vec<String>),
}

/// Whether the arguments ask for the quickstart guide.
pub open spec fn is_quickstart(args: Seq<Seq<char>>) -> bool {
    args.len() > 0 && args[0] == "quickstart"@
}

/// Decide what `rx` does: `quickstart` is handled here; everything else
/// is `ir tool rx` followed by the arguments.
pub fn rx_action(args: Vec<String>) -> (r: RxAction)
    ensures
        is_quickstart(texts(args@)) ==> (r matches RxAction::Quickstart(rest) && texts(rest@)
            == texts(args@).drop_first()),
        !is_quickstart(texts(args@)) ==> (r matches RxAction::Forward(all) && texts(all@)
            == seq!["tool"@, "rx"@] + texts(args@)),
{
    if args.len() > 0 && text_eq(args[0].as_str(), "quickstart") {
        let mut rest: Vec<String> = Vec::new();
        let mut i: usize = 1;
        while i < args.len()
            invariant
                1 <= i <= args@.len(),
                texts(rest@) == texts(args@).subrange(1, i as int),
            decreases args.len() - i,
        {
            rest.push(args[i].clone());
            assert(texts(args@).subrange(1, i + 1) =~= texts(args@).subrange(1, i as int).push(
                args@[i as int]@,
            ));
            assert(texts(rest@) =~= texts(args@).subrange(1, i as int).push(args@[i as int]@));
            i = i + 1;
        }
        assert(texts(args@).drop_first() =~= texts(args@).subrange(1, args@.len() as int));
        return RxAction::Quickstart(rest);
    }
    let mut all: Vec<String> = Vec::new();
    all.push(String::from_str("tool"));
    all.push(String::from_str("rx"));
    let mut i: usize = 0;
    while i < args.len()
        invariant
            i <= args@.len(),
            texts(all@) == seq!["tool"@, "rx"@] + texts(args@).take(i as int),
        decreases args.len() - i,
    {
        let ghost before = all@;
        all.push(args[i].clone());
        assert(texts(all@) =~= texts(before).push(args@[i as int]@));
        assert(texts(args@).take(i + 1) =~= texts(args@).take(i as int).push(args@[i as int]@));
        i = i + 1;
    }
    assert(texts(args@).take(args@.len() as int) =~= texts(args@));
    RxAction::Forward(all)
}

/// What `rx quickstart` does with the arguments after `quickstart`.
#[derive(Debug)]
pub enum QuickstartAction {
    /// Print the guide.
    Guide,
    /// Print the command's help.
    Help,
    /// Refuse this argument.
    Unexpected(String),
}

/// Decide what `rx quickstart` does: no arguments print the guide, a lone
/// `--help` or `-h` its help, and anything else is refused by its first
/// argument.
pub fn quickstart_action(args: &Vec<String>) -> (r: QuickstartAction)
    ensures
        args@.len() == 0 ==> r is Guide,
        args@.len() == 1 && (args@[0]@ == "--help"@ || args@[0]@ == "-h"@) ==> r is Help,
        args@.len() > 0 && !(args@.len() == 1 && (args@[0]@ == "--help"@ || args@[0]@ == "-h"@))
            ==> (r matches QuickstartAction::Unexpected(a) && a@ == args@[0]@),
{
    if args.len() == 0 {
        return QuickstartAction::Guide;
    }
    if args.len() == 1 && (text_eq(args[0].as_str(), "--help") || text_eq(args[0].as_str(), "-h")) {
        return QuickstartAction::Help;
    }
    QuickstartAction::Unexpected(args[0].clone())
}

/// The help of `rx quickstart`.
pub fn quickstart_help() -> (s: String)
    ensures
        s@ == "Show a concise usage guide for AI agents\n\nUsage: rx quickstart\n\nOptions:\n  -h, --help  Print help\n"@,
{
    String::from_str(
        "Show a concise usage guide for AI agents\n\nUsage: rx quickstart\n\nOptions:\n  -h, --help  Print help\n",
    )
}

/// The error for an argument `rx quickstart` does not take.
pub fn quickstart_error(arg: &str) -> (m: String)
    ensures
        m@ == "unexpected argument '"@ + arg@ + "' for `rx quickstart`"@,
{
    let mut m = String::from_str("unexpected argument '");
    m.append(arg);
    m.append("' for `rx quickstart`");
    m
}

/// The `ir` binary beside `rx`, in the directory `bin`, with the
/// platform's executable suffix.
pub fn ir_binary_path(bin: &str, exe_suffix: &str) -> (r: String)
    ensures
        r@ == joined_path(bin@, "ir"@ + exe_suffix@),
{
    let mut name = String::from_str("ir");
    name.append(exe_suffix);
    join_path(bin, name.as_str())
}

/// The error when `ir` is not beside `rx`.
pub fn missing_ir_error(path: &str) -> (m: String)
    ensures
        m@ == "could not find the `ir` binary at: "@ + path@,
{
    let mut m = String::from_str("could not find the `ir` binary at: ");
    m.append(path);
    m
}

} // verus!
