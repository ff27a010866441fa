use reauthor::extractor::{commit_record, extract_commit_data, trim_end, CommitData, RawCommit};
use reauthor::sequencer::build_script;

fn raw(id: &str, message: Option<&str>, seconds: i64) -> RawCommit {
    RawCommit {
        id: id.to_string(),
        message: message.map(|m| m.to_string()),
        seconds,
        author_name: Some("John Doe".to_string()),
        author_email: Some("test1@example.com".to_string()),
    }
}

#[test]
fn test_extract_commit_data() {
    let walk = vec![
        raw("5f2d4b7468be1b13c9919e29c0ebe24aa6c88945", Some("Fourth commit\n"), 1702435688),
        raw("38111bc1c0547a6debb0b836f4271f5987d35d4c", Some("Third commit\n"), 1702435549),
        raw("a0e6bc34b3d8b7d6efdf0f359d6a5780af3bf082", Some("Second commit\n"), 1702435492),
        raw("20aebad0585f3c7ddbf22e599fd16e9691d5a1b4", Some("Initial commit\n"), 1702435437),
    ];

    let commits = extract_commit_data(&walk);

    assert_eq!(commits.len(), 4);
    assert_eq!(commits[0].sha, "5f2d4b7468be1b13c9919e29c0ebe24aa6c88945");
    assert_eq!(
        commits[3],
        CommitData {
            sha: "20aebad0585f3c7ddbf22e599fd16e9691d5a1b4".into(),
            comment: "Initial commit".into(),
            date: "1702435437".into(),
            author_name: "John Doe".into(),
            author_email: "test1@example.com".into(),
        }
    );
    assert!(build_script(&commits, "New Author", "new@example.com").is_ok());
}

#[test]
fn absent_fields_become_empty() {
    let record = commit_record(&RawCommit {
        id: "abc".to_string(),
        message: None,
        seconds: -5,
        author_name: None,
        author_email: None,
    });
    assert_eq!(record.comment, "");
    assert_eq!(record.author_name, "");
    assert_eq!(record.author_email, "");
    assert_eq!(record.date, "-5");
    assert_eq!(record.clone(), record);
}

#[test]
fn no_commits_no_records() {
    assert_eq!(extract_commit_data(&[]), Vec::new());
}

#[test]
fn trim_end_agrees_with_the_standard_trimming() {
    let samples = [
        "", " ", "a", "a ", " a", " a \t\r\n", "line\n\n", "two words  ", "\u{a0}", "x\u{a0}",
        "x\u{2003}\u{3000}", "x\u{200b}", "x\u{85}", "x\u{1680}\u{2028}\u{2029}\u{202f}\u{205f}",
        "é \u{feff}", "tab\u{b}\u{c}", "x\u{1c}", "inner  gap ",
    ];
    for sample in samples {
        assert_eq!(trim_end(sample), sample.trim_end(), "{:?}", sample);
    }
}
