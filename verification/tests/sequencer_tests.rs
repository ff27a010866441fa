use reauthor::ammender;
use reauthor::extractor::CommitData;
use reauthor::sequencer::{
    amend_commit, build_amend, build_script, record_with_date, sequence_builder,
    update_commit_data, SequenceError,
};
use reauthor::timestamp::TimestampError;

fn record(sha: &str, comment: &str, date: &str) -> CommitData {
    CommitData {
        sha: sha.to_string(),
        comment: comment.to_string(),
        date: date.to_string(),
        author_name: "Jane Bane".to_string(),
        author_email: "test4@example.com".to_string(),
    }
}

fn repo_history() -> Vec<CommitData> {
    vec![
        record("0239187061c3cc536d51b9d34c95390c9ab1e8ef", "fourth commit", "1702508887"),
        record("38111bc1c0547a6debb0b836f4271f5987d35d4c", "third commit", "1702435549"),
        record("a0e6bc34b3d8b7d6efdf0f359d6a5780af3bf082", "second commit", "1702435492"),
        record("20aebad0585f3c7ddbf22e599fd16e9691d5a1b4", "init commit", "1702435437"),
    ]
}

fn letters() -> Vec<CommitData> {
    vec![
        record("A", "first", "1702435437"),
        record("B", "second", "1702435492"),
        record("C", "third", "1702435549"),
        record("D", "fourth", "1702435688"),
    ]
}

#[test]
fn sequencer_test_sequence_builder() {
    let new_author = "test_author";
    let new_email = "test_email@example.com";

    let result = sequence_builder(&repo_history(), new_author, new_email);

    assert!(result.is_ok());
    let artifact = result.unwrap();
    assert_eq!(artifact.path, "./data/rebase_todo.txt");
    assert_eq!(artifact.content.split('\n').count(), 8);
}

#[test]
fn ammender_test_sequence_builder() {
    let new_author = "test_author";
    let new_email = "test_email@example.com";

    let result = ammender::sequence_builder(&repo_history(), new_author, new_email);

    assert!(result.is_ok());
    let artifact = result.unwrap();
    assert_eq!(artifact.path, "./data/sequence_editor.sh");
    assert_eq!(
        artifact.content,
        build_script(&repo_history(), new_author, new_email).unwrap()
    );
}

#[test]
fn four_records_give_eight_lines() {
    let script = build_script(&letters(), "New Author", "new@example.com").unwrap();
    let lines: Vec<&str> = script.split('\n').collect();
    assert_eq!(lines.len(), 8);
    assert_eq!(lines[0], "pick A first");
    assert!(lines[1].starts_with("exec "));
    assert!(lines[1].contains("git commit --amend"));
    assert!(lines[1].contains("New Author"));
    assert!(lines[1].contains("new@example.com"));
    assert!(lines[1].contains("Wed Dec 13 02:43:57 2023 +0000"));
    assert!(lines[6].starts_with("pick D"));
    assert!(!script.ends_with('\n'));
}

#[test]
fn every_pair_stands_at_its_records_place() {
    let records = letters();
    let script = build_script(&records, "New Author", "new@example.com").unwrap();
    let lines: Vec<&str> = script.split('\n').collect();
    assert_eq!(lines.len(), 2 * records.len());
    for (i, item) in records.iter().enumerate() {
        let pair = amend_commit(item, "New Author", "new@example.com").unwrap();
        assert_eq!(lines[2 * i], pair.rebase_commit);
        assert_eq!(lines[2 * i + 1], pair.amend_command);
    }
}

#[test]
fn amend_line_is_exact() {
    let pair = amend_commit(
        &record("20aebad0585f3c7ddbf22e599fd16e9691d5a1b4", "init commit", "1702435437"),
        "New Author",
        "new@example.com",
    )
    .unwrap();
    assert_eq!(
        pair.rebase_commit,
        "pick 20aebad0585f3c7ddbf22e599fd16e9691d5a1b4 init commit"
    );
    assert_eq!(
        pair.amend_command,
        "exec GIT_COMMITTER_NAME='New Author' GIT_COMMITTER_EMAIL='new@example.com' \
         GIT_COMMITTER_DATE='Wed Dec 13 02:43:57 2023 +0000' git commit --amend --no-edit \
         --author 'New Author <new@example.com>' --date 'Wed Dec 13 02:43:57 2023 +0000'"
    );
    assert_eq!(pair.commit_data.sha, "20aebad0585f3c7ddbf22e599fd16e9691d5a1b4");
    assert_eq!(pair.commit_data.date, "1702435437");
}

#[test]
fn build_amend_takes_the_date_as_given() {
    let pair = build_amend(&record("A", "msg", "ignored"), "N", "e@x", "some date");
    assert_eq!(pair.rebase_commit, "pick A msg");
    assert_eq!(
        pair.amend_command,
        "exec GIT_COMMITTER_NAME='N' GIT_COMMITTER_EMAIL='e@x' GIT_COMMITTER_DATE='some date' \
         git commit --amend --no-edit --author 'N <e@x>' --date 'some date'"
    );
}

#[test]
fn quotes_in_the_identity_are_escaped() {
    let pair = build_amend(&record("A", "msg", "0"), "O'Brien", "o@x", "d");
    assert!(pair.amend_command.contains("GIT_COMMITTER_NAME='O'\\''Brien' "));
    assert!(pair.amend_command.contains("--author 'O'\\''Brien <o@x>' "));
}

#[test]
fn empty_message_leaves_a_trailing_blank() {
    let pair = amend_commit(&record("A", "", "0"), "N", "e").unwrap();
    assert_eq!(pair.rebase_commit, "pick A ");
}

#[test]
fn empty_identity_is_accepted() {
    let pair = amend_commit(&record("A", "m", "0"), "", "").unwrap();
    assert!(pair.amend_command.contains("GIT_COMMITTER_NAME='' GIT_COMMITTER_EMAIL='' "));
    assert!(pair.amend_command.contains("--author ' <>' "));
}

#[test]
fn epoch_is_a_thursday() {
    let pair = amend_commit(&record("A", "m", "0"), "N", "e").unwrap();
    assert!(pair.amend_command.contains("'Thu Jan  1 00:00:00 1970 +0000'"));
}

#[test]
fn empty_history_gives_the_empty_script() {
    let none: Vec<CommitData> = Vec::new();
    assert_eq!(build_script(&none, "N", "e"), Ok(String::new()));
    let artifact = sequence_builder(&none, "N", "e").unwrap();
    assert_eq!(artifact.content, "");
    assert_eq!(artifact.path, "./data/rebase_todo.txt");
}

#[test]
fn one_record_gives_two_lines_and_no_break_at_the_end() {
    let script = build_script(&[record("A", "m", "0")], "N", "e").unwrap();
    assert_eq!(script.matches('\n').count(), 1);
    assert!(script.starts_with("pick A m\nexec "));
}

#[test]
fn the_first_record_without_a_plan_ends_the_work() {
    let mut records = letters();
    records[2].date = "yesterday".to_string();
    records[3].date = "99999999999999".to_string();
    let fault = SequenceError { index: 2, cause: TimestampError::Malformed };
    assert_eq!(build_script(&records, "N", "e"), Err(fault));
    assert_eq!(sequence_builder(&records, "N", "e"), Err(fault));
    assert_eq!(ammender::sequence_builder(&records, "N", "e"), Err(fault));
}

#[test]
fn a_timestamp_beyond_the_calendar_is_reported() {
    let records = vec![record("A", "m", "0"), record("B", "m", "8210266876800")];
    assert_eq!(
        build_script(&records, "N", "e"),
        Err(SequenceError { index: 1, cause: TimestampError::OutOfRange })
    );
    assert_eq!(
        amend_commit(&records[1], "N", "e"),
        Err(TimestampError::OutOfRange)
    );
    assert_eq!(
        amend_commit(&record("A", "m", "12a"), "N", "e"),
        Err(TimestampError::Malformed)
    );
}

#[test]
fn planning_twice_gives_the_same_bytes() {
    let first = build_script(&letters(), "New Author", "new@example.com");
    let second = build_script(&letters(), "New Author", "new@example.com");
    assert_eq!(first, second);
    let one = amend_commit(&letters()[0], "New Author", "new@example.com");
    let two = amend_commit(&letters()[0], "New Author", "new@example.com");
    assert_eq!(one, two);
}

#[test]
fn sequence_error_has_a_message() {
    let fault = SequenceError { index: 3, cause: TimestampError::Malformed };
    assert_eq!(
        fault.message(),
        "no rewrite script was made: timestamp is not a whole number of seconds"
    );
    assert_eq!(
        TimestampError::OutOfRange.message(),
        "timestamp lies outside the supported years"
    );
}

#[test]
fn update_commit_data_changes_the_date_only() {
    let given = record("A", "m", "1702435437");
    let updated = update_commit_data(&given, "New Author", "n@x").unwrap();
    assert_eq!(updated.sha, "A");
    assert_eq!(updated.comment, "m");
    assert_eq!(updated.date, "Wed Dec 13 02:43:57 2023 +0000");
    assert_eq!(updated.author_name, "Jane Bane");
    assert_eq!(updated.author_email, "test4@example.com");
    assert_eq!(given, record("A", "m", "1702435437"));
    assert_eq!(update_commit_data(&given, "Someone Else", "other@y"), Ok(updated));
}

#[test]
fn update_commit_data_holds_the_date_of_the_amend_line() {
    let given = record("A", "m", "1702435549");
    let updated = update_commit_data(&given, "N", "e").unwrap();
    let pair = amend_commit(&given, "N", "e").unwrap();
    assert!(pair.amend_command.ends_with(&format!(" --date '{}'", updated.date)));
}

#[test]
fn update_commit_data_fails_as_planning_does() {
    assert_eq!(
        update_commit_data(&record("A", "m", ""), "N", "e"),
        Err(TimestampError::Malformed)
    );
    assert_eq!(
        update_commit_data(&record("A", "m", "-8334601228801"), "N", "e"),
        Err(TimestampError::OutOfRange)
    );
    let plain = record_with_date(&record("A", "m", "1"), "a date");
    assert_eq!(plain.date, "a date");
    assert_eq!(plain.author_name, "Jane Bane");
}
