//! Command resolution and execution planning: candidate lists built from a
//! search path, selection of the first executable candidate, the `exit`
//! built-in, and the action a caller must take for one command.

use vstd::prelude::*;
use crate::text::{views, tokens, split_char};

verus! {

/// The name of the one built-in command.
pub open spec fn exit_word() -> Seq<char> {
    "exit"@
}

/// Candidate paths `dir/name` for each directory of `dirs`, in order.
pub open spec fn dir_candidates(dirs: Seq<Seq<char>>, name: Seq<char>) -> Seq<Seq<char>>
    decreases dirs.len(),
{
    if dirs.len() == 0 {
        Seq::<Seq<char>>::empty()
    } else {
        dir_candidates(dirs.drop_last(), name).push(dirs.last() + seq!['/'] + name)
    }
}

/// The ordered candidate list for a command name: the name itself first, then
/// `dir/name` for each directory of the colon-separated search path, in the
/// order the path lists them.
pub open spec fn candidate_list(name: Seq<char>, path: Option<Seq<char>>) -> Seq<Seq<char>> {
    match path {
        None => seq![name],
        Some(p) => seq![name] + dir_candidates(split_char(p, ':'), name),
    }
}

/// The smallest index whose flag is set, if any flag is.
pub open spec fn first_flagged(flags: Seq<bool>) -> Option<int>
    decreases flags.len(),
{
    if flags.len() == 0 {
        None
    } else if flags.first() {
        Some(0)
    } else {
        match first_flagged(flags.drop_first()) {
            None => None,
            Some(j) => Some(j + 1),
        }
    }
}

/// `first_flagged` names the first set flag: the index it returns is set and
/// every earlier one is clear, and it returns nothing only when every flag is
/// clear. This is the order contract of path resolution: the earliest
/// surviving candidate wins.
pub proof fn lemma_first_flagged(flags: Seq<bool>)
    ensures
        match first_flagged(flags) {
            Some(i) => 0 <= i < flags.len() && flags[i] && (forall|k: int|
                0 <= k < i ==> !flags[k]),
            None => forall|k: int| 0 <= k < flags.len() ==> !flags[k],
        },
    decreases flags.len(),
{
    if flags.len() > 0 && !flags.first() {
        let d = flags.drop_first();
        lemma_first_flagged(d);
        match first_flagged(d) {
            None => {
                assert forall|k: int| 0 <= k < flags.len() implies !flags[k] by {
                    if k > 0 {
                        assert(d[k - 1] == flags[k]);
                    }
                }
            },
            Some(j) => {
                assert(d[j] == flags[j + 1]);
                assert forall|k: int| 0 <= k < j + 1 implies !flags[k] by {
                    if k > 0 {
                        assert(d[k - 1] == flags[k]);
                    }
                }
            },
        }
    }
}

/// The view of an optional string.
pub open spec fn opt_view(p: Option<String>) -> Option<Seq<char>> {
    match p {
        None => None,
        Some(s) => Some(s@),
    }
}

/// What the executor decides to do with one command.
#[derive(Debug, PartialEq, Eq)]
pub enum CommandAction {
    /// The command had no tokens: absorb it silently.
    Nop,
    /// The `exit` built-in: terminate the session with success.
    Exit,
    /// No candidate path is executable: report and continue.
    NotFound,
    /// Run `path` with `args`, inheriting the standard streams, and wait.
    Spawn { path: String, args: Vec<String> },
}

/// What `process_input_command` promises of its result. The token structure
/// and the built-in are decided exactly; which candidate survives depends on
/// the filesystem, so of a `Spawn` this says only that the path is one of the
/// candidates, in addition to the exact argument list. `select_first` states
/// the full selection rule as a function of the executability flags.
pub open spec fn action_matches(cmd: Seq<char>, path: Option<Seq<char>>, r: CommandAction) -> bool {
    let toks = tokens(cmd);
    if toks.len() == 0 {
        r is Nop
    } else if toks.first() == exit_word() {
        r is Exit
    } else {
        match r {
            CommandAction::NotFound => true,
            CommandAction::Spawn { path: p, args } => candidate_list(toks.first(), path).contains(
                p@,
            ) && views(args@) == toks.drop_first(),
            _ => false,
        }
    }
}

/// Invoking the `exit` built-in, with any trailing arguments, always ends in
/// the `Exit` action: no command whose first token is `exit` can reach path
/// resolution.
pub proof fn lemma_exit_bypasses_resolution(cmd: Seq<char>, path: Option<Seq<char>>, r: CommandAction)
    requires
        tokens(cmd).len() > 0,
        tokens(cmd).first() == exit_word(),
        action_matches(cmd, path, r),
    ensures
        r is Exit,
{
}

impl CommandAction {
    /// The diagnostic owed for this action: the farewell of the `exit`
    /// built-in, the not-found report, and nothing for the others.
    pub fn diagnostic(&self) -> (r: Option<String>)
        ensures
            self is Exit ==> (r matches Some(m) && m@ == "exiting"@),
            self is NotFound ==> (r matches Some(m) && m@ == "command not found"@),
            self is Nop || self is Spawn ==> r is None,
    {
        match self {
            CommandAction::Exit => Some(String::from_str("exiting")),
            CommandAction::NotFound => Some(String::from_str("command not found")),
            _ => None,
        }
    }
}

/// The diagnostic owed when a resolved executable fails to spawn.
pub fn spawn_failure_message() -> (r: String)
    ensures
        r@ == "failed at executing"@,
{
    String::from_str("failed at executing")
}

/// The diagnostic owed when the line reader signals that input is over.
pub fn read_failure_message() -> (r: String)
    ensures
        r@ == "failed at reading input"@,
{
    String::from_str("failed at reading input")
}

/// Relies on `is_executable::is_executable`: whether the path names a file
/// that exists and is marked executable. The answer depends on the
/// filesystem, so nothing is promised of it.
#[verifier::external_body]
fn path_is_executable(p: &String) -> bool {
    is_executable::is_executable(std::path::Path::new(p.as_str()))
}

/// The candidate paths tried for `name` under the given search path: `name`
/// itself first, then `dir/name` for each directory, in path order.
pub fn build_candidates(name: &String, path_var: &Option<String>) -> (r: Vec<String>)
    ensures
        views(r@) == candidate_list(name@, opt_view(*path_var)),
{
    let mut r: Vec<String> = Vec::new();
    r.push(name.clone());
    match path_var {
        None => {
            proof {
                assert(views(r@) =~= seq![name@]);
            }
        },
        Some(p) => {
            let dirs = crate::text::split_on_char(p, ':');
            let ghost dv = split_char(p@, ':');
            let mut i: usize = 0;
            proof {
                assert(views(r@) =~= seq![name@] + dir_candidates(dv.take(0), name@));
            }
            while i < dirs.len()
                invariant
                    i <= dirs@.len(),
                    views(dirs@) == dv,
                    views(r@) == seq![name@] + dir_candidates(dv.take(i as int), name@),
                decreases dirs@.len() - i,
            {
                let ghost prev = dir_candidates(dv.take(i as int), name@);
                let mut entry = dirs[i].clone();
                entry.append("/");
                entry.append(name.as_str());
                proof {
                    reveal_strlit("/");
                    assert(views(dirs@)[i as int] == dirs@[i as int]@);
                    assert(entry@ =~= dv[i as int] + seq!['/'] + name@);
                    assert(dv.take(i as int + 1).drop_last() =~= dv.take(i as int));
                    assert(dv.take(i as int + 1).last() == dv[i as int]);
                    assert(dir_candidates(dv.take(i as int + 1), name@) == prev.push(
                        dv[i as int] + seq!['/'] + name@,
                    ));
                }
                r.push(entry);
                proof {
                    assert(views(r@) =~= (seq![name@] + prev).push(entry@));
                    assert((seq![name@] + prev).push(entry@) =~= seq![name@] + prev.push(entry@));
                    assert(prev.push(entry@) == dir_candidates(dv.take(i as int + 1), name@));
                }
                i = i + 1;
            }
            proof {
                assert(dv.take(dv.len() as int) =~= dv);
            }
        },
    }
    r
}

/// The first candidate whose flag is set, if any: the selection rule of path
/// resolution, stated for every possible outcome of the executability probes.
pub fn select_first(cands: &Vec<String>, flags: &Vec<bool>) -> (r: Option<String>)
    requires
        cands@.len() == flags@.len(),
    ensures
        match first_flagged(flags@) {
            None => r is None,
            Some(i) => r matches Some(p) && p@ == cands@[i]@,
        },
{
    let mut i: usize = 0;
    proof {
        assert(flags@.skip(0) =~= flags@);
    }
    while i < cands.len()
        invariant
            i <= cands@.len(),
            cands@.len() == flags@.len(),
            first_flagged(flags@) == match first_flagged(flags@.skip(i as int)) {
                None => None::<int>,
                Some(j) => Some(j + i),
            },
            forall|k: int| 0 <= k < i ==> !flags@[k],
        decreases cands@.len() - i,
    {
        proof {
            assert(flags@.skip(i as int).first() == flags@[i as int]);
            assert(flags@.skip(i as int).drop_first() =~= flags@.skip(i as int + 1));
        }
        if flags[i] {
            return Some(cands[i].clone());
        }
        i = i + 1;
    }
    proof {
        assert(flags@.skip(i as int) =~= Seq::<bool>::empty());
    }
    None
}

/// Probes each candidate in order and returns the first that the filesystem
/// reports executable. The choice among candidates is exactly the
/// `select_first` rule; which flags come back is the filesystem's to decide,
/// so the contract promises only that a returned path is one of the
/// candidates.
pub fn resolve_command(cands: &Vec<String>) -> (r: Option<String>)
    ensures
        r matches Some(p) ==> views(cands@).contains(p@),
{
    let mut flags: Vec<bool> = Vec::new();
    let mut i: usize = 0;
    while i < cands.len()
        invariant
            i <= cands@.len(),
            flags@.len() == i,
        decreases cands@.len() - i,
    {
        let f = path_is_executable(&cands[i]);
        flags.push(f);
        i = i + 1;
    }
    let r = select_first(cands, &flags);
    proof {
        lemma_first_flagged(flags@);
        if let Some(j) = first_flagged(flags@) {
            assert(views(cands@)[j] == cands@[j]@);
        }
    }
    r
}

} // verus!
