use sheru::executor::CommandAction;
use sheru::shell::{ReadEvent, ReadStatus, Shell};

fn interactive() -> Shell {
    Shell { interactive: true }
}

#[test]
fn plain_line_is_one_fragment() {
    let sh = interactive();
    let mut frags: Vec<String> = Vec::new();
    let st = sh.read_input(&mut frags, ReadEvent::Line(String::from("echo hi\n")));
    assert_eq!(st, ReadStatus::Complete);
    assert_eq!(frags, vec![String::from("echo hi")]);
}

#[test]
fn line_without_terminator_is_one_fragment() {
    let sh = interactive();
    let mut frags: Vec<String> = Vec::new();
    let st = sh.read_input(&mut frags, ReadEvent::Line(String::from("echo hi")));
    assert_eq!(st, ReadStatus::Complete);
    assert_eq!(frags, vec![String::from("echo hi")]);
}

#[test]
fn empty_line_is_one_empty_fragment() {
    let sh = interactive();
    let mut frags: Vec<String> = Vec::new();
    let st = sh.read_input(&mut frags, ReadEvent::Line(String::from("\n")));
    assert_eq!(st, ReadStatus::Complete);
    assert_eq!(frags, vec![String::new()]);
}

#[test]
fn continuation_gathers_two_fragments() {
    let sh = interactive();
    let mut frags: Vec<String> = Vec::new();
    let st1 = sh.read_input(&mut frags, ReadEvent::Line(String::from("a\\\n")));
    assert_eq!(st1, ReadStatus::NeedMore);
    assert_eq!(frags, vec![String::from("a")]);
    let st2 = sh.read_input(&mut frags, ReadEvent::Line(String::from("b\n")));
    assert_eq!(st2, ReadStatus::Complete);
    assert_eq!(frags, vec![String::from("a"), String::from("b")]);
}

#[test]
fn lone_continuation_marker_gives_an_empty_fragment() {
    let sh = interactive();
    let mut frags: Vec<String> = Vec::new();
    let st = sh.read_input(&mut frags, ReadEvent::Line(String::from("\\\n")));
    assert_eq!(st, ReadStatus::NeedMore);
    assert_eq!(frags, vec![String::new()]);
}

#[test]
fn end_of_input_ends_the_session() {
    let sh = interactive();
    let mut frags: Vec<String> = vec![String::from("kept")];
    let st = sh.read_input(&mut frags, ReadEvent::EndOfInput);
    assert_eq!(st, ReadStatus::Ended);
    assert_eq!(frags, vec![String::from("kept")]);
}

#[test]
fn read_failure_ends_the_session() {
    let sh = interactive();
    let mut frags: Vec<String> = Vec::new();
    let st = sh.read_input(&mut frags, ReadEvent::Failure);
    assert_eq!(st, ReadStatus::Ended);
    assert!(frags.is_empty());
}

#[test]
fn non_interactive_reading_is_unsupported() {
    let sh = Shell { interactive: false };
    assert_eq!(sh.read_input_raw(), ReadStatus::Unsupported);
    let mut frags: Vec<String> = Vec::new();
    let st = sh.read_input(&mut frags, ReadEvent::Line(String::from("echo hi\n")));
    assert_eq!(st, ReadStatus::Unsupported);
    assert!(frags.is_empty());
}

#[test]
fn prompts_are_gated_by_the_flag() {
    let sh = interactive();
    assert_eq!(sh.prompt_input(), Some(String::from("sheru $ ")));
    assert_eq!(sh.prompt_line(), Some(String::from("sheru > ")));
    assert_eq!(sh.prompt(String::from("x")), Some(String::from("x")));
    let quiet = Shell { interactive: false };
    assert_eq!(quiet.prompt_input(), None);
    assert_eq!(quiet.prompt_line(), None);
    assert_eq!(quiet.prompt(String::from("x")), None);
}

#[test]
fn isatty_reports_the_flag() {
    assert!(interactive().isatty());
    assert!(!Shell { interactive: false }.isatty());
}

#[test]
fn session_flag_is_the_conjunction_of_the_terminal_answers() {
    assert!(Shell::session_from(true, true).isatty());
    assert!(!Shell::session_from(true, false).isatty());
    assert!(!Shell::session_from(false, true).isatty());
    assert!(!Shell::session_from(false, false).isatty());
}

#[test]
fn default_session_matches_the_terminal_state() {
    let sh: Shell = Default::default();
    let expected = atty::is(atty::Stream::Stdin) && atty::is(atty::Stream::Stdout);
    assert_eq!(sh.isatty(), expected);
}

#[test]
fn new_shell_matches_the_terminal_state() {
    let sh = Shell::new();
    let expected = atty::is(atty::Stream::Stdin) && atty::is(atty::Stream::Stdout);
    assert_eq!(sh.isatty(), expected);
}

#[test]
fn splitting_drops_empty_segments() {
    let sh = interactive();
    let cmds = sh.process_input_line(0, String::from("echo hi ; ls ;;  "));
    assert_eq!(cmds, vec![String::from("echo hi"), String::from("ls")]);
    assert_eq!(
        sheru::text::tokenize(&cmds[0]),
        vec![String::from("echo"), String::from("hi")]
    );
    assert_eq!(sheru::text::tokenize(&cmds[1]), vec![String::from("ls")]);
}

#[test]
fn unicode_whitespace_counts_as_whitespace() {
    let sh = interactive();
    let cmds = sh.process_input_line(0, String::from("\u{a0}\u{2003};ls\u{3000}"));
    assert_eq!(cmds, vec![String::from("ls")]);
    assert_eq!(
        sheru::text::tokenize(&String::from("a\u{a0}b")),
        vec![String::from("a"), String::from("b")]
    );
}

#[test]
fn blank_line_yields_no_commands() {
    let sh = interactive();
    assert!(sh.process_input_line(0, String::from(" ;;  ; ")).is_empty());
    assert!(sh.process_input_line(0, String::from(";;;")).is_empty());
    assert!(sh.process_input_line(0, String::new()).is_empty());
    assert!(sh.process_input(vec![String::from(" ; "), String::from(";")]).is_empty());
}

#[test]
fn fragments_join_before_splitting() {
    let sh = interactive();
    let cmds = sh.process_input(vec![String::from("echo a"), String::from("b ; ls")]);
    assert_eq!(cmds, vec![String::from("echo ab"), String::from("ls")]);
}

#[test]
fn empty_command_is_a_silent_no_op() {
    let sh = interactive();
    let act = sh.process_input_command(String::from("   "), &None);
    assert_eq!(act, CommandAction::Nop);
    assert_eq!(act.diagnostic(), None);
}

#[test]
fn exit_never_reaches_resolution() {
    let sh = interactive();
    let act = sh.process_input_command(String::from("exit now really"), &None);
    assert_eq!(act, CommandAction::Exit);
    let act2 = sh.process_input_command(
        String::from("  exit 0"),
        &Some(String::from("/usr/bin:/bin")),
    );
    assert_eq!(act2, CommandAction::Exit);
    assert_eq!(act2.diagnostic(), Some(String::from("exiting")));
}

#[test]
fn missing_command_is_reported_and_session_goes_on() {
    let sh = interactive();
    let acts = sh.process_input_commands(
        vec![String::from("definitely_missing_command_zz"), String::from("exit")],
        &None,
    );
    assert_eq!(acts.len(), 2);
    assert_eq!(acts[0], CommandAction::NotFound);
    assert_eq!(acts[0].diagnostic(), Some(String::from("command not found")));
    assert_eq!(acts[1], CommandAction::Exit);
}

#[test]
fn verbatim_executable_is_spawned_with_args() {
    let sh = interactive();
    let act = sh.process_input_command(String::from("/bin/sh -c true"), &None);
    match act {
        CommandAction::Spawn { path, args } => {
            assert_eq!(path, String::from("/bin/sh"));
            assert_eq!(args, vec![String::from("-c"), String::from("true")]);
        }
        other => panic!("expected a spawn, got {:?}", other),
    }
}

#[test]
fn search_path_supplies_the_directory() {
    let sh = interactive();
    let act = sh.process_input_command(
        String::from("sh"),
        &Some(String::from("/nonexistent_dir_zz:/bin")),
    );
    match act {
        CommandAction::Spawn { path, args } => {
            assert_eq!(path, String::from("/bin/sh"));
            assert!(args.is_empty());
        }
        other => panic!("expected a spawn, got {:?}", other),
    }
}
