use sheru::executor::{
    build_candidates, read_failure_message, resolve_command, select_first, spawn_failure_message,
};

#[test]
fn candidates_keep_search_path_order() {
    let cands = build_candidates(
        &String::from("ls"),
        &Some(String::from("/usr/bin:/bin")),
    );
    assert_eq!(
        cands,
        vec![
            String::from("ls"),
            String::from("/usr/bin/ls"),
            String::from("/bin/ls"),
        ]
    );
}

#[test]
fn candidates_without_search_path() {
    let cands = build_candidates(&String::from("ls"), &None);
    assert_eq!(cands, vec![String::from("ls")]);
}

#[test]
fn empty_search_path_entries_still_become_candidates() {
    let cands = build_candidates(&String::from("x"), &Some(String::from(":a")));
    assert_eq!(
        cands,
        vec![String::from("x"), String::from("/x"), String::from("a/x")]
    );
}

#[test]
fn selection_takes_the_first_surviving_candidate() {
    let cands = vec![
        String::from("ls"),
        String::from("/usr/bin/ls"),
        String::from("/bin/ls"),
    ];
    assert_eq!(
        select_first(&cands, &vec![false, false, true]),
        Some(String::from("/bin/ls"))
    );
    assert_eq!(
        select_first(&cands, &vec![false, true, true]),
        Some(String::from("/usr/bin/ls"))
    );
    assert_eq!(
        select_first(&cands, &vec![true, false, true]),
        Some(String::from("ls"))
    );
    assert_eq!(select_first(&cands, &vec![false, false, false]), None);
}

#[test]
fn resolution_probes_the_real_filesystem() {
    assert_eq!(
        resolve_command(&vec![String::from("/nonexistent_zz"), String::from("/bin/sh")]),
        Some(String::from("/bin/sh"))
    );
    assert_eq!(resolve_command(&vec![String::from("/nonexistent_zz")]), None);
}

#[test]
fn diagnostic_messages_are_exact() {
    assert_eq!(spawn_failure_message(), String::from("failed at executing"));
    assert_eq!(read_failure_message(), String::from("failed at reading input"));
}
