//! Commit records: what is kept of each commit of a history, and how a
//! record is made from what a repository gives.

use crate::text::{chars_of, text_of};
use crate::timestamp::{decimal_text, parse_seconds, timestamp_text};
use vstd::prelude::*;

verus! {

/// One commit of the history, as it was read from the repository.
#[derive(Debug, PartialEq, Eq)]
pub struct CommitData {
    /// The commit's identifier.
    pub sha: String,
    /// The commit message without trailing blanks; it may be empty.
    pub comment: String,
    /// The author time: seconds since the epoch, as decimal text.
    pub date: String,
    /// The author's name, empty where the repository gives none.
    pub author_name: String,
    /// The author's email address, empty where the repository gives none.
    pub author_email: String,
}

/// The texts of a commit record.
pub struct CommitDataView {
    pub sha: Seq<char>,
    pub comment: Seq<char>,
    pub date: Seq<char>,
    pub author_name: Seq<char>,
    pub author_email: Seq<char>,
}

impl View for CommitData {
    type V = CommitDataView;

    open spec fn view(&self) -> CommitDataView {
        CommitDataView {
            sha: self.sha@,
            comment: self.comment@,
            date: self.date@,
            author_name: self.author_name@,
            author_email: self.author_email@,
        }
    }
}

impl Clone for CommitData {
    fn clone(&self) -> (copy: CommitData)
        ensures
            copy == *self,
    {
        CommitData {
            sha: self.sha.clone(),
            comment: self.comment.clone(),
            date: self.date.clone(),
            author_name: self.author_name.clone(),
            author_email: self.author_email.clone(),
        }
    }
}

/// The texts of each record of a sequence, in the same order.
pub open spec fn record_views(records: Seq<CommitData>) -> Seq<CommitDataView> {
    records.map_values(|record: CommitData| record@)
}

/// What a repository gives of one commit, before it is made a record.
#[derive(Debug, PartialEq, Eq)]
pub struct RawCommit {
    /// The commit's identifier, in hexadecimal.
    pub id: String,
    /// The message, absent where it is not valid text.
    pub message: Option<String>,
    /// The author time in seconds since the epoch.
    pub seconds: i64,
    /// The author's name, absent where it is not valid text.
    pub author_name: Option<String>,
    /// The author's email address, absent where it is not valid text.
    pub author_email: Option<String>,
}

/// The character has Unicode's White_Space property.
pub uninterp spec fn unicode_blank(c: char) -> bool;

/// `char::is_whitespace` tells whether the character has Unicode's
/// White_Space property, which depends on the character alone.
pub assume_specification[ char::is_whitespace ](c: char) -> (blank: bool)
    ensures
        blank == unicode_blank(c),
;

/// The text without the blanks at its end: its longest prefix that is empty
/// or ends in a character that is no blank.
pub open spec fn trimmed_end(text: Seq<char>) -> Seq<char>
    decreases text.len(),
{
    if text.len() > 0 && unicode_blank(text.last()) {
        trimmed_end(text.drop_last())
    } else {
        text
    }
}

/// Strips the blanks from the end of a text.
pub fn trim_end(text: &str) -> (trimmed: String)
    ensures
        trimmed@ == trimmed_end(text@),
{
    let chars = chars_of(text);
    let mut end: usize = chars.len();
    assert(text@.take(end as int) =~= text@);
    while end > 0 && chars[end - 1].is_whitespace()
        invariant
            chars@ == text@,
            end <= chars@.len(),
            trimmed_end(text@) == trimmed_end(text@.take(end as int)),
        decreases end,
    {
        assert(text@.take(end as int).drop_last() =~= text@.take(end - 1));
        end = end - 1;
    }
    text_of(&chars, end)
}

/// The text of an optional field: empty where there is none.
pub open spec fn text_or_empty(field: Option<String>) -> Seq<char> {
    match field {
        Some(text) => text@,
        None => Seq::empty(),
    }
}

/// The record of a raw commit: its identifier, its message without trailing
/// blanks, its author time in decimal, and the author's name and address.
pub open spec fn record_of(raw: RawCommit) -> CommitDataView {
    CommitDataView {
        sha: raw.id@,
        comment: trimmed_end(text_or_empty(raw.message)),
        date: decimal_text(raw.seconds as int),
        author_name: text_or_empty(raw.author_name),
        author_email: text_or_empty(raw.author_email),
    }
}

fn owned_or_empty(field: &Option<String>) -> (text: String)
    ensures
        text@ == text_or_empty(*field),
{
    match field {
        Some(text) => text.clone(),
        None => String::new(),
    }
}

/// Makes the record of one commit.
///
/// The date of the record always reads back as the commit's seconds.
pub fn commit_record(raw: &RawCommit) -> (record: CommitData)
    ensures
        record@ == record_of(*raw),
        parse_seconds(record.date@) == Some(raw.seconds),
{
    let comment = match &raw.message {
        Some(message) => trim_end(message.as_str()),
        None => {
            assert(trimmed_end(Seq::<char>::empty()) =~= Seq::<char>::empty());
            String::new()
        },
    };
    CommitData {
        sha: raw.id.clone(),
        comment,
        date: timestamp_text(raw.seconds),
        author_name: owned_or_empty(&raw.author_name),
        author_email: owned_or_empty(&raw.author_email),
    }
}

/// Makes the records of a walk through a history: one record per commit, in
/// the order in which the walk gave the commits.
pub fn extract_commit_data(commits: &[RawCommit]) -> (records: Vec<CommitData>)
    ensures
        records@.len() == commits@.len(),
        forall|i: int| 0 <= i < commits@.len() ==> (#[trigger] records@[i])@ == record_of(commits@[i]),
        forall|i: int|
            0 <= i < commits@.len() ==> parse_seconds((#[trigger] records@[i]).date@) == Some(
                commits@[i].seconds,
            ),
{
    let mut records: Vec<CommitData> = Vec::new();
    let mut i: usize = 0;
    while i < commits.len()
        invariant
            i <= commits@.len(),
            records@.len() == i,
            forall|k: int| 0 <= k < i ==> (#[trigger] records@[k])@ == record_of(commits@[k]),
            forall|k: int|
                0 <= k < i ==> parse_seconds((#[trigger] records@[k]).date@) == Some(
                    commits@[k].seconds,
                ),
        decreases commits@.len() - i,
    {
        let record = commit_record(&commits[i]);
        records.push(record);
        i = i + 1;
    }
    records
}

} // verus!
