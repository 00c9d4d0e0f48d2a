//! The shell session: the interactive-terminal flag fixed at construction,
//! the line reader that joins backslash-continued lines, the splitter that
//! turns a logical line into commands, and the per-command execution plan.

use vstd::prelude::*;
use crate::executor::{action_matches, opt_view, CommandAction};
use crate::executor::{build_candidates, exit_word, resolve_command};
use crate::text::{commands_of_line, kept_segments, split_char, strip_last, trim, views};
use crate::text::{concat_seqs, concat_strings, split_on_char, strip_suffix_char, substring};
use crate::text::tokenize;

verus! {

/// One shell session. The `interactive` flag is fixed at construction and
/// gates prompting and the choice of line-reading strategy.
pub struct Shell {
    pub interactive: bool,
}

/// What one attempt to read a raw line produced.
pub enum ReadEvent {
    /// A raw line of text, possibly ending in a line terminator.
    Line(String),
    /// The input source is exhausted.
    EndOfInput,
    /// The input source failed in some other way.
    Failure,
}

/// The line reader's answer after one raw line.
#[derive(Clone, Copy, Debug, PartialEq, Eq, Structural)]
pub enum ReadStatus {
    /// The raw line ended in a continuation marker: read another.
    NeedMore,
    /// The logical line is complete.
    Complete,
    /// No more input: the session is over.
    Ended,
    /// The session is not interactive, and no other reading strategy is
    /// implemented: a stable failure, never a guess.
    Unsupported,
}

/// A raw line's contribution to the logical line: the line with one trailing
/// line terminator stripped, and then one trailing continuation marker
/// stripped if present.
pub open spec fn fragment_of(buf: Seq<char>) -> Seq<char> {
    let t = strip_last(buf, '\n');
    if has_continuation(t) {
        t.drop_last()
    } else {
        t
    }
}

/// Whether a terminator-stripped raw line asks for a continuation line.
pub open spec fn has_continuation(stripped: Seq<char>) -> bool {
    stripped.len() > 0 && stripped.last() == '\\'
}

/// Relies on `atty::is(atty::Stream::Stdin)`: whether standard input is an
/// interactive terminal. The answer depends on the environment, so nothing
/// is promised of it.
#[verifier::external_body]
fn stdin_is_tty() -> bool {
    atty::is(atty::Stream::Stdin)
}

/// Relies on `atty::is(atty::Stream::Stdout)`: whether standard output is an
/// interactive terminal. The answer depends on the environment, so nothing
/// is promised of it.
#[verifier::external_body]
fn stdout_is_tty() -> bool {
    atty::is(atty::Stream::Stdout)
}

impl Shell {
    /// The session the terminal answers call for: interactive exactly when
    /// both standard input and standard output reported an interactive
    /// terminal.
    pub fn session_from(stdin_tty: bool, stdout_tty: bool) -> (r: Shell)
        ensures
            r.interactive == (stdin_tty && stdout_tty),
    {
        Shell { interactive: stdin_tty && stdout_tty }
    }

    /// A session whose `interactive` flag says whether both standard input
    /// and standard output are attached to an interactive terminal. The
    /// terminal answers are environment facts, so the tie of flag to answers
    /// is the contract of `session_from`; nothing more can be promised here.
    pub fn new() -> Shell {
        let stdin_tty = stdin_is_tty();
        let stdout_tty = stdout_is_tty();
        Shell::session_from(stdin_tty, stdout_tty)
    }

    /// Whether the session is interactive.
    pub fn isatty(&self) -> (r: bool)
        ensures
            r == self.interactive,
    {
        self.interactive
    }

    /// The text to emit for a prompt: the given text when the session is
    /// interactive, nothing otherwise.
    pub fn prompt(&self, s: String) -> (r: Option<String>)
        ensures
            self.interactive ==> r == Some(s),
            !self.interactive ==> r is None,
    {
        if self.isatty() {
            Some(s)
        } else {
            None
        }
    }

    /// The command prompt, owed exactly when the session is interactive.
    pub fn prompt_input(&self) -> (r: Option<String>)
        ensures
            r is Some <==> self.interactive,
            r matches Some(p) ==> p@ == "sheru $ "@,
    {
        self.prompt(String::from_str("sheru $ "))
    }

    /// The continuation prompt, owed exactly when the session is interactive.
    pub fn prompt_line(&self) -> (r: Option<String>)
        ensures
            r is Some <==> self.interactive,
            r matches Some(p) ==> p@ == "sheru > "@,
    {
        self.prompt(String::from_str("sheru > "))
    }

    /// The non-interactive reading strategy, deliberately not implemented:
    /// every call is a stable `Unsupported` answer, never a guess at
    /// behavior this crate does not define.
    pub fn read_input_raw(&self) -> (r: ReadStatus)
        ensures
            r is Unsupported,
    {
        ReadStatus::Unsupported
    }

    /// Feed the line reader one read event. In an interactive session, a raw
    /// line has its terminator stripped and joins the accumulated logical
    /// line; the answer says whether the line asked for a continuation. End
    /// of input and read failures end the session, leaving the accumulator
    /// alone. A non-interactive session answers `Unsupported` at once.
    pub fn read_input(&self, fragments: &mut Vec<String>, event: ReadEvent) -> (r: ReadStatus)
        ensures
            !self.interactive ==> r is Unsupported && final(fragments)@ == old(fragments)@,
            self.interactive && !(event is Line) ==> r is Ended && final(fragments)@ == old(
                fragments,
            )@,
            self.interactive ==> (event matches ReadEvent::Line(buf) ==> views(final(fragments)@)
                == views(old(fragments)@).push(fragment_of(buf@)) && (r is NeedMore
                <==> has_continuation(strip_last(buf@, '\n'))) && (r is Complete
                <==> !has_continuation(strip_last(buf@, '\n')))),
    {
        if !self.isatty() {
            return self.read_input_raw();
        }
        match event {
            ReadEvent::EndOfInput => ReadStatus::Ended,
            ReadEvent::Failure => ReadStatus::Ended,
            ReadEvent::Line(buf) => {
                let stripped = strip_suffix_char(&buf, '\n');
                let m: usize = stripped.as_str().unicode_len();
                if m > 0 && stripped.as_str().get_char(m - 1) == '\\' {
                    proof {
                        assert(stripped@.subrange(0, m as int - 1) =~= stripped@.drop_last());
                    }
                    let frag = substring(&stripped, 0, m - 1);
                    fragments.push(frag);
                    proof {
                        assert(views(fragments@) =~= views(old(fragments)@).push(
                            fragment_of(buf@),
                        ));
                    }
                    ReadStatus::NeedMore
                } else {
                    fragments.push(stripped);
                    proof {
                        assert(views(fragments@) =~= views(old(fragments)@).push(
                            fragment_of(buf@),
                        ));
                    }
                    ReadStatus::Complete
                }
            },
        }
    }

    /// The commands of one logical line: split on `;`, trim each segment,
    /// and keep the non-empty segments, in order.
    pub fn process_input_line(&self, _index: usize, line: String) -> (r: Vec<String>)
        ensures
            views(r@) == commands_of_line(line@),
    {
        let segs = split_on_char(&line, ';');
        let ghost sv = split_char(line@, ';');
        let mut kept: Vec<String> = Vec::new();
        let mut i: usize = 0;
        proof {
            assert(sv.take(0) =~= Seq::<Seq<char>>::empty());
            assert(views(kept@) =~= kept_segments(sv.take(0)));
        }
        while i < segs.len()
            invariant
                i <= segs@.len(),
                views(segs@) == sv,
                views(kept@) == kept_segments(sv.take(i as int)),
            decreases segs@.len() - i,
        {
            proof {
                assert(sv.take(i as int + 1).drop_last() =~= sv.take(i as int));
                assert(sv.take(i as int + 1).last() == sv[i as int]);
                assert(views(segs@)[i as int] == segs@[i as int]@);
            }
            let t = crate::text::trim_string(&segs[i]);
            if !t.as_str().is_empty() {
                let ghost prev = kept_segments(sv.take(i as int));
                kept.push(t);
                proof {
                    assert(views(kept@) =~= prev.push(trim(sv[i as int])));
                }
            }
            i = i + 1;
        }
        proof {
            assert(sv.take(sv.len() as int) =~= sv);
        }
        kept
    }

    /// The commands of one logical line given as its fragment list: the
    /// fragments joined into a single string, then split into commands.
    pub fn process_input(&self, lines: Vec<String>) -> (r: Vec<String>)
        ensures
            views(r@) == commands_of_line(concat_seqs(views(lines@))),
    {
        let joined = concat_strings(&lines);
        self.process_input_line(0, joined)
    }

    /// The action one command calls for: nothing for an empty token list,
    /// the `exit` built-in before any path resolution, and otherwise a spawn
    /// of the first executable candidate or a not-found report.
    pub fn process_input_command(&self, command: String, path_var: &Option<String>) -> (r:
        CommandAction)
        ensures
            action_matches(command@, opt_view(*path_var), r),
    {
        let toks = tokenize(&command);
        if toks.len() == 0 {
            return CommandAction::Nop;
        }
        proof {
            assert(views(toks@)[0] == toks@[0]@);
        }
        if is_exit_name(&toks[0]) {
            return CommandAction::Exit;
        }
        let cands = build_candidates(&toks[0], path_var);
        match resolve_command(&cands) {
            None => CommandAction::NotFound,
            Some(p) => {
                let mut args: Vec<String> = Vec::new();
                let mut i: usize = 1;
                proof {
                    assert(views(args@) =~= views(toks@).subrange(1, 1));
                }
                while i < toks.len()
                    invariant
                        1 <= i <= toks@.len(),
                        views(args@) == views(toks@).subrange(1, i as int),
                    decreases toks@.len() - i,
                {
                    proof {
                        assert(views(toks@)[i as int] == toks@[i as int]@);
                    }
                    let ghost pv = views(args@);
                    args.push(toks[i].clone());
                    proof {
                        assert(views(args@) =~= pv.push(toks@[i as int]@));
                        assert(pv.push(toks@[i as int]@) =~= views(toks@).subrange(
                            1,
                            i as int + 1,
                        ));
                    }
                    i = i + 1;
                }
                proof {
                    assert(views(toks@).subrange(1, toks@.len() as int) =~= views(
                        toks@,
                    ).drop_first());
                }
                CommandAction::Spawn { path: p, args }
            },
        }
    }

    /// The actions a sequence of commands calls for, one per command, in
    /// order, each judged independently: a failed command never disturbs the
    /// plan for the commands after it.
    pub fn process_input_commands(&self, commands: Vec<String>, path_var: &Option<String>) -> (r:
        Vec<CommandAction>)
        ensures
            r@.len() == commands@.len(),
            forall|i: int|
                0 <= i < r@.len() ==> action_matches(
                    commands@[i]@,
                    opt_view(*path_var),
                    #[trigger] r@[i],
                ),
    {
        let mut r: Vec<CommandAction> = Vec::new();
        let mut i: usize = 0;
        while i < commands.len()
            invariant
                i <= commands@.len(),
                r@.len() == i,
                forall|j: int|
                    0 <= j < i ==> action_matches(
                        commands@[j]@,
                        opt_view(*path_var),
                        #[trigger] r@[j],
                    ),
            decreases commands@.len() - i,
        {
            let a = self.process_input_command(commands[i].clone(), path_var);
            r.push(a);
            i = i + 1;
        }
        r
    }
}

impl Default for Shell {
    /// A session built exactly as `Shell::new` builds one: the flag answers
    /// the terminal query, so nothing more can be promised of it.
    fn default() -> Shell {
        Shell::new()
    }
}

/// Whether `s` names the `exit` built-in.
fn is_exit_name(s: &String) -> (r: bool)
    ensures
        r == (s@ == exit_word()),
{
    let e = String::from_str("exit");
    s.eq(&e)
}

/// A logical line holding nothing but separators and whitespace yields no
/// commands at all: blank input is a true no-op.
pub proof fn lemma_blank_line_no_commands(line: Seq<char>)
    requires
        forall|k: int| 0 <= k < line.len() ==> line[k] == ';' || crate::text::is_space(line[k]),
    ensures
        commands_of_line(line).len() == 0,
{
    crate::text::lemma_space_split_segments(line, ';');
    crate::text::lemma_space_segments_kept_empty(split_char(line, ';'));
}

} // verus!
