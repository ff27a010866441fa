//! The rewrite plan: for each commit a line that picks it and a line that
//! amends its author, committer and dates, and the script made of all of them.

use crate::extractor::{record_views, CommitData, CommitDataView};
use crate::text::{
    join_lines, join_with_breaks, lines_of, shell_quote, shell_quoted, single_line, texts, unbroken,
};
use crate::text::{lemma_lines_of_join, lemma_quoted_single_line, lemma_single_line_concat};
use crate::timestamp::{commit_date, date_of, TimestampError};
use vstd::prelude::*;

verus! {

/// The two instructions that rewrite one commit.
#[derive(Debug, PartialEq, Eq)]
pub struct CommitAmend {
    /// The record that the instructions were made from.
    pub commit_data: CommitData,
    /// The line that keeps the commit in its place.
    pub rebase_commit: String,
    /// The line that amends the commit that was just picked.
    pub amend_command: String,
}

/// The texts of an instruction pair.
pub struct CommitAmendView {
    pub commit_data: CommitDataView,
    pub rebase_commit: Seq<char>,
    pub amend_command: Seq<char>,
}

impl View for CommitAmend {
    type V = CommitAmendView;

    open spec fn view(&self) -> CommitAmendView {
        CommitAmendView {
            commit_data: self.commit_data@,
            rebase_commit: self.rebase_commit@,
            amend_command: self.amend_command@,
        }
    }
}

/// The line that selects a commit: the verb, the identifier, a blank and the
/// message as it stands.
pub open spec fn select_line(sha: Seq<char>, comment: Seq<char>) -> Seq<char> {
    "pick "@ + sha + " "@ + comment
}

/// An identity as `git commit --author` takes it: the name, then the address
/// in angle brackets.
pub open spec fn author_text(name: Seq<char>, email: Seq<char>) -> Seq<char> {
    name + " <"@ + email + ">"@
}

/// The line that amends the picked commit: it sets the committer's name,
/// address and date in the environment of `git commit --amend`, which keeps
/// the message and takes the author and the author date as options. Every
/// value is one quoted shell word.
pub open spec fn amend_line(name: Seq<char>, email: Seq<char>, date: Seq<char>) -> Seq<char> {
    "exec GIT_COMMITTER_NAME="@ + shell_quoted(name) + " GIT_COMMITTER_EMAIL="@ + shell_quoted(
        email,
    ) + " GIT_COMMITTER_DATE="@ + shell_quoted(date) + " git commit --amend --no-edit --author "@
        + shell_quoted(author_text(name, email)) + " --date "@ + shell_quoted(date)
}

/// The instruction pair of a record for a given date text.
pub open spec fn amend_with_date(
    record: CommitDataView,
    name: Seq<char>,
    email: Seq<char>,
    date: Seq<char>,
) -> CommitAmendView {
    CommitAmendView {
        commit_data: record,
        rebase_commit: select_line(record.sha, record.comment),
        amend_command: amend_line(name, email, date),
    }
}

/// The plan for one record: its instruction pair, or the reason why its
/// timestamp gives no date.
pub open spec fn plan_of(record: CommitDataView, name: Seq<char>, email: Seq<char>) -> Result<
    CommitAmendView,
    TimestampError,
> {
    match date_of(record.date) {
        Ok(date) => Ok(amend_with_date(record, name, email, date)),
        Err(reason) => Err(reason),
    }
}

/// The outcome `plan` is the one that `plan_of` gives.
pub open spec fn is_plan_of(
    record: CommitDataView,
    name: Seq<char>,
    email: Seq<char>,
    plan: Result<CommitAmend, TimestampError>,
) -> bool {
    match plan {
        Ok(pair) => plan_of(record, name, email) == Ok::<CommitAmendView, TimestampError>(pair@),
        Err(reason) => plan_of(record, name, email) == Err::<CommitAmendView, TimestampError>(
            reason,
        ),
    }
}

/// Makes the instruction pair of a record whose date text is already at
/// hand.
pub fn build_amend(
    commit_data: &CommitData,
    new_author: &str,
    new_email: &str,
    commit_date: &str,
) -> (pair: CommitAmend)
    ensures
        pair@ == amend_with_date(commit_data@, new_author@, new_email@, commit_date@),
{
    let mut author = String::from_str(new_author);
    author.append(" <");
    author.append(new_email);
    author.append(">");
    assert(author@ =~= author_text(new_author@, new_email@));

    let name_word = shell_quote(new_author);
    let email_word = shell_quote(new_email);
    let date_word = shell_quote(commit_date);
    let author_word = shell_quote(author.as_str());

    let mut amend_command = String::from_str("exec GIT_COMMITTER_NAME=");
    amend_command.append(name_word.as_str());
    amend_command.append(" GIT_COMMITTER_EMAIL=");
    amend_command.append(email_word.as_str());
    amend_command.append(" GIT_COMMITTER_DATE=");
    amend_command.append(date_word.as_str());
    amend_command.append(" git commit --amend --no-edit --author ");
    amend_command.append(author_word.as_str());
    amend_command.append(" --date ");
    amend_command.append(date_word.as_str());
    assert(amend_command@ =~= amend_line(new_author@, new_email@, commit_date@));

    let mut rebase_commit = String::from_str("pick ");
    rebase_commit.append(commit_data.sha.as_str());
    rebase_commit.append(" ");
    rebase_commit.append(commit_data.comment.as_str());
    assert(rebase_commit@ =~= select_line(commit_data.sha@, commit_data.comment@));

    CommitAmend { commit_data: commit_data.clone(), rebase_commit, amend_command }
}

/// Plans the rewrite of one commit: reads its timestamp, turns it into a
/// date text and makes the instruction pair.
///
/// It fails, and only then, where the timestamp is no whole number of
/// seconds or lies outside the calendar. The date text of a plan holds no
/// line break.
pub fn amend_commit(commit_data: &CommitData, new_author: &str, new_email: &str) -> (plan: Result<
    CommitAmend,
    TimestampError,
>)
    ensures
        is_plan_of(commit_data@, new_author@, new_email@, plan),
        plan is Ok ==> single_line(date_of(commit_data.date@)->Ok_0),
{
    match commit_date(commit_data.date.as_str()) {
        Ok(date) => Ok(build_amend(commit_data, new_author, new_email, date.as_str())),
        Err(reason) => Err(reason),
    }
}

/// A plan is one value: two outcomes of planning the same record for the same
/// identity are the same.
pub proof fn lemma_plan_deterministic(
    record: CommitDataView,
    name: Seq<char>,
    email: Seq<char>,
    first: Result<CommitAmend, TimestampError>,
    second: Result<CommitAmend, TimestampError>,
)
    requires
        is_plan_of(record, name, email, first),
        is_plan_of(record, name, email, second),
    ensures
        first is Ok <==> second is Ok,
        first is Ok ==> first->Ok_0@ == second->Ok_0@,
        first is Err ==> first->Err_0 == second->Err_0,
{
}

/// The record with the given date text in place of its timestamp; all else
/// stays as it came.
pub open spec fn redated(record: CommitDataView, date: Seq<char>) -> CommitDataView {
    CommitDataView {
        sha: record.sha,
        comment: record.comment,
        date: date,
        author_name: record.author_name,
        author_email: record.author_email,
    }
}

/// The outcome of updating a record: the record with the date text of its
/// timestamp, or the reason why the timestamp gives none.
pub open spec fn is_update_of(record: CommitDataView, outcome: Result<CommitData, TimestampError>) -> bool {
    match outcome {
        Ok(updated) => date_of(record.date) is Ok && updated@ == redated(
            record,
            date_of(record.date)->Ok_0,
        ),
        Err(reason) => date_of(record.date) == Err::<Seq<char>, TimestampError>(reason),
    }
}

/// Makes the record that holds a date text that is already at hand.
pub fn record_with_date(commit_data: &CommitData, commit_date: &str) -> (updated: CommitData)
    ensures
        updated@ == redated(commit_data@, commit_date@),
{
    CommitData {
        sha: commit_data.sha.clone(),
        comment: commit_data.comment.clone(),
        date: String::from_str(commit_date),
        author_name: commit_data.author_name.clone(),
        author_email: commit_data.author_email.clone(),
    }
}

/// Says what a commit record holds once its date is written as the rewrite
/// writes it: the date text that `amend_commit` puts into the amend line
/// stands in place of the seconds. The new identity takes no part in the
/// record; the given record is left as it is.
///
/// It fails, and only then, where the timestamp is no whole number of
/// seconds or lies outside the calendar.
pub fn update_commit_data(commit_data: &CommitData, new_author: &str, new_email: &str) -> (outcome:
    Result<CommitData, TimestampError>)
    ensures
        is_update_of(commit_data@, outcome),
{
    match commit_date(commit_data.date.as_str()) {
        Ok(date) => Ok(record_with_date(commit_data, date.as_str())),
        Err(reason) => Err(reason),
    }
}

/// An updated record holds the date text of the record's plan: the one that
/// stands in the amend line.
pub proof fn lemma_update_matches_plan(
    record: CommitDataView,
    name: Seq<char>,
    email: Seq<char>,
    updated: Result<CommitData, TimestampError>,
    plan: Result<CommitAmend, TimestampError>,
)
    requires
        is_update_of(record, updated),
        is_plan_of(record, name, email, plan),
    ensures
        updated is Ok <==> plan is Ok,
        updated is Ok ==> plan->Ok_0.amend_command@ == amend_line(
            name,
            email,
            updated->Ok_0.date@,
        ),
        updated is Err ==> updated->Err_0 == plan->Err_0,
{
}

/// Why a script could not be made: the first record that has no plan, and
/// what is wrong with its timestamp.
#[derive(Debug, Clone, Copy, PartialEq, Eq, Structural)]
pub struct SequenceError {
    /// The position of the record, counted from zero.
    pub index: usize,
    /// What is wrong with its timestamp.
    pub cause: TimestampError,
}

impl SequenceError {
    /// The sentence that says why no script was made.
    pub open spec fn message_text(self) -> Seq<char> {
        "no rewrite script was made: "@ + self.cause.message_text()
    }

    /// A sentence for the operator.
    pub fn message(&self) -> (text: String)
        ensures
            text@ == self.message_text(),
    {
        let mut text = String::from_str("no rewrite script was made: ");
        text.append(self.cause.message().as_str());
        text
    }
}

/// The record has a plan.
pub open spec fn plannable(record: CommitDataView) -> bool {
    date_of(record.date) is Ok
}

/// Every record has a plan.
pub open spec fn all_plannable(records: Seq<CommitDataView>) -> bool {
    forall|i: int| 0 <= i < records.len() ==> plannable(#[trigger] records[i])
}

/// The lines of the script for records that all have a plan: two for each
/// record, in the order of the records, the select line at the even
/// position and its amend line right after it.
pub open spec fn planned_lines(records: Seq<CommitDataView>, name: Seq<char>, email: Seq<char>) -> Seq<
    Seq<char>,
> {
    Seq::new(
        2 * records.len(),
        |k: int|
            if k % 2 == 0 {
                select_line(records[k / 2].sha, records[k / 2].comment)
            } else {
                amend_line(name, email, date_of(records[k / 2].date)->Ok_0)
            },
    )
}

/// The text of the script: its lines joined by line breaks.
pub open spec fn script_text(records: Seq<CommitDataView>, name: Seq<char>, email: Seq<char>) -> Seq<
    char,
> {
    join_lines(planned_lines(records, name, email))
}

/// The outcome of making a script: the script, owed exactly when every
/// record has a plan; else the first record without one and its fault.
pub open spec fn is_script_of(
    records: Seq<CommitDataView>,
    name: Seq<char>,
    email: Seq<char>,
    outcome: Result<String, SequenceError>,
) -> bool {
    match outcome {
        Ok(script) => all_plannable(records) && script@ == script_text(records, name, email),
        Err(fault) => {
            &&& fault.index < records.len()
            &&& all_plannable(records.take(fault.index as int))
            &&& date_of(records[fault.index as int].date) == Err::<Seq<char>, TimestampError>(
                fault.cause,
            )
        },
    }
}

/// Neither the identity nor the identifier or the message of any record
/// holds a line break.
pub open spec fn single_lined(records: Seq<CommitDataView>, name: Seq<char>, email: Seq<char>) -> bool {
    &&& single_line(name)
    &&& single_line(email)
    &&& forall|i: int|
        0 <= i < records.len() ==> single_line((#[trigger] records[i]).sha) && single_line(
            records[i].comment,
        )
}

/// The date text of every record holds no line break.
pub open spec fn dates_single_lined(records: Seq<CommitDataView>) -> bool {
    forall|i: int| 0 <= i < records.len() ==> single_line(date_of((#[trigger] records[i]).date)->Ok_0)
}

/// The script holds two lines for each record, and the lines at positions
/// `2 i` and `2 i + 1` are the select line and the amend line of record `i`.
pub open spec fn keeps_order(
    records: Seq<CommitDataView>,
    name: Seq<char>,
    email: Seq<char>,
    script: Seq<char>,
) -> bool {
    &&& lines_of(script).len() == 2 * records.len()
    &&& forall|i: int|
        0 <= i < records.len() ==> {
            &&& (#[trigger] lines_of(script)[2 * i]) == select_line(
                records[i].sha,
                records[i].comment,
            )
            &&& lines_of(script)[2 * i + 1] == amend_line(
                name,
                email,
                date_of(records[i].date)->Ok_0,
            )
        }
}

/// A select line holds a line break only where the identifier or the
/// message holds one.
pub proof fn lemma_select_single_line(sha: Seq<char>, comment: Seq<char>)
    requires
        single_line(sha),
        single_line(comment),
    ensures
        single_line(select_line(sha, comment)),
{
    reveal_strlit("pick ");
    reveal_strlit(" ");
    lemma_single_line_concat("pick "@, sha);
    lemma_single_line_concat("pick "@ + sha, " "@);
    lemma_single_line_concat("pick "@ + sha + " "@, comment);
}

/// An amend line holds a line break only where the identity or the date
/// text holds one.
pub proof fn lemma_amend_single_line(name: Seq<char>, email: Seq<char>, date: Seq<char>)
    requires
        single_line(name),
        single_line(email),
        single_line(date),
    ensures
        single_line(amend_line(name, email, date)),
{
    reveal_strlit(" <");
    reveal_strlit(">");
    lemma_single_line_concat(name, " <"@);
    lemma_single_line_concat(name + " <"@, email);
    lemma_single_line_concat(name + " <"@ + email, ">"@);
    lemma_quoted_single_line(name);
    lemma_quoted_single_line(email);
    lemma_quoted_single_line(date);
    lemma_quoted_single_line(author_text(name, email));

    reveal_strlit("exec GIT_COMMITTER_NAME=");
    reveal_strlit(" GIT_COMMITTER_EMAIL=");
    reveal_strlit(" GIT_COMMITTER_DATE=");
    reveal_strlit(" git commit --amend --no-edit --author ");
    reveal_strlit(" --date ");
    let a = "exec GIT_COMMITTER_NAME="@ + shell_quoted(name);
    lemma_single_line_concat("exec GIT_COMMITTER_NAME="@, shell_quoted(name));
    let b = a + " GIT_COMMITTER_EMAIL="@;
    lemma_single_line_concat(a, " GIT_COMMITTER_EMAIL="@);
    let c = b + shell_quoted(email);
    lemma_single_line_concat(b, shell_quoted(email));
    let d = c + " GIT_COMMITTER_DATE="@;
    lemma_single_line_concat(c, " GIT_COMMITTER_DATE="@);
    let e = d + shell_quoted(date);
    lemma_single_line_concat(d, shell_quoted(date));
    let f = e + " git commit --amend --no-edit --author "@;
    lemma_single_line_concat(e, " git commit --amend --no-edit --author "@);
    let g = f + shell_quoted(author_text(name, email));
    lemma_single_line_concat(f, shell_quoted(author_text(name, email)));
    let h = g + " --date "@;
    lemma_single_line_concat(g, " --date "@);
    lemma_single_line_concat(h, shell_quoted(date));
}

/// The lines of a script hold no line break where the records, the identity
/// and the date texts hold none.
pub proof fn lemma_lines_unbroken(records: Seq<CommitDataView>, name: Seq<char>, email: Seq<char>)
    requires
        single_lined(records, name, email),
        dates_single_lined(records),
    ensures
        unbroken(planned_lines(records, name, email)),
{
    let lines = planned_lines(records, name, email);
    assert forall|k: int| 0 <= k < lines.len() implies single_line(#[trigger] lines[k]) by {
        let record = records[k / 2];
        if k % 2 == 0 {
            lemma_select_single_line(record.sha, record.comment);
        } else {
            lemma_amend_single_line(name, email, date_of(record.date)->Ok_0);
        }
    }
}

/// The lines for one more record are the lines so far and then its pair.
pub proof fn lemma_planned_lines_step(
    records: Seq<CommitDataView>,
    name: Seq<char>,
    email: Seq<char>,
    i: int,
)
    requires
        0 <= i < records.len(),
    ensures
        planned_lines(records.take(i + 1), name, email) == planned_lines(
            records.take(i),
            name,
            email,
        ).push(select_line(records[i].sha, records[i].comment)).push(
            amend_line(name, email, date_of(records[i].date)->Ok_0),
        ),
{
    let longer = planned_lines(records.take(i + 1), name, email);
    let shorter = planned_lines(records.take(i), name, email);
    let pushed = shorter.push(select_line(records[i].sha, records[i].comment)).push(
        amend_line(name, email, date_of(records[i].date)->Ok_0),
    );
    assert(longer.len() == pushed.len());
    assert forall|k: int| 0 <= k < longer.len() implies longer[k] == pushed[k] by {
        if k < 2 * i {
            assert(records.take(i + 1)[k / 2] == records.take(i)[k / 2]);
        } else {
            assert(k / 2 == i);
            assert(records.take(i + 1)[k / 2] == records[i]);
        }
    }
    assert(longer =~= pushed);
}

/// Makes the text of the rewrite script for a history.
///
/// The records are planned in their order. The first one without a plan ends
/// the work, and nothing of a script is returned then. A script keeps the
/// order of the records, line for line, unless an identifier, a message or
/// the identity holds a line break.
pub fn build_script(commits: &[CommitData], new_author: &str, new_email: &str) -> (outcome: Result<
    String,
    SequenceError,
>)
    ensures
        is_script_of(record_views(commits@), new_author@, new_email@, outcome),
        outcome matches Ok(script) ==> (single_lined(
            record_views(commits@),
            new_author@,
            new_email@,
        ) ==> keeps_order(record_views(commits@), new_author@, new_email@, script@)),
{
    let ghost records = record_views(commits@);
    let mut script_lines: Vec<String> = Vec::new();
    let mut i: usize = 0;
    while i < commits.len()
        invariant
            i <= commits@.len(),
            records == record_views(commits@),
            all_plannable(records.take(i as int)),
            dates_single_lined(records.take(i as int)),
            texts(script_lines@) == planned_lines(records.take(i as int), new_author@, new_email@),
        decreases commits@.len() - i,
    {
        assert(records[i as int] == commits@[i as int]@);
        match amend_commit(&commits[i], new_author, new_email) {
            Err(cause) => {
                return Err(SequenceError { index: i, cause });
            },
            Ok(pair) => {
                proof {
                    lemma_planned_lines_step(records, new_author@, new_email@, i as int);
                    assert forall|k: int| 0 <= k < i + 1 implies plannable(
                        #[trigger] records.take(i + 1)[k],
                    ) && single_line(date_of(records.take(i + 1)[k].date)->Ok_0) by {
                        if k < i {
                            assert(records.take(i + 1)[k] == records.take(i as int)[k]);
                        }
                    }
                }
                let ghost before = texts(script_lines@);
                script_lines.push(pair.rebase_commit);
                script_lines.push(pair.amend_command);
                assert(texts(script_lines@) =~= before.push(pair.rebase_commit@).push(
                    pair.amend_command@,
                ));
            },
        }
        i = i + 1;
    }
    assert(records.take(commits@.len() as int) =~= records);
    proof {
        if single_lined(records, new_author@, new_email@) {
            lemma_lines_unbroken(records, new_author@, new_email@);
            lemma_script_keeps_order(records, new_author@, new_email@);
        }
    }
    Ok(join_with_breaks(&script_lines))
}

/// A script and the place where it is to be written, replacing what is
/// there.
#[derive(Debug, PartialEq, Eq)]
pub struct ScriptArtifact {
    /// The path of the file.
    pub path: String,
    /// The whole content of the file.
    pub content: String,
}

/// The path at which the sequencer's script is kept, and where the rebase
/// callback looks for it.
pub open spec fn rebase_todo_path() -> Seq<char> {
    "./data/rebase_todo.txt"@
}

/// The outcome of a builder that keeps its script at `path`.
pub open spec fn is_artifact_of(
    records: Seq<CommitDataView>,
    name: Seq<char>,
    email: Seq<char>,
    path: Seq<char>,
    outcome: Result<ScriptArtifact, SequenceError>,
) -> bool {
    match outcome {
        Ok(artifact) => {
            &&& artifact.path@ == path
            &&& is_script_of(records, name, email, Ok::<String, SequenceError>(artifact.content))
            &&& single_lined(records, name, email) ==> keeps_order(
                records,
                name,
                email,
                artifact.content@,
            )
        },
        Err(fault) => is_script_of(records, name, email, Err::<String, SequenceError>(fault)),
    }
}

/// Plans the rewrite of a whole history and says what is to be persisted:
/// the complete script at the sequencer's fixed path.
///
/// Where a record has no plan there is nothing to persist: the outcome names
/// that record and holds no part of a script, so whatever is at the path
/// stays as it is.
pub fn sequence_builder(commits: &[CommitData], new_author: &str, new_email: &str) -> (outcome:
    Result<ScriptArtifact, SequenceError>)
    ensures
        is_artifact_of(
            record_views(commits@),
            new_author@,
            new_email@,
            rebase_todo_path(),
            outcome,
        ),
{
    match build_script(commits, new_author, new_email) {
        Ok(content) => Ok(
            ScriptArtifact { path: String::from_str("./data/rebase_todo.txt"), content },
        ),
        Err(fault) => Err(fault),
    }
}

/// Order is kept: where no line holds a line break, the script's text has
/// exactly two lines for each record, and the lines at positions `2 i` and
/// `2 i + 1` are the select line and the amend line of record `i`.
pub proof fn lemma_script_keeps_order(
    records: Seq<CommitDataView>,
    name: Seq<char>,
    email: Seq<char>,
)
    requires
        unbroken(planned_lines(records, name, email)),
    ensures
        keeps_order(records, name, email, script_text(records, name, email)),
{
    let lines = planned_lines(records, name, email);
    if lines.len() >= 1 {
        reveal_strlit("pick ");
        assert(lines[0] == select_line(records[0].sha, records[0].comment));
        assert(lines[0].len() >= 5);
    }
    lemma_lines_of_join(lines);
    assert forall|i: int| 0 <= i < records.len() implies {
        &&& (#[trigger] lines[2 * i]) == select_line(records[i].sha, records[i].comment)
        &&& lines[2 * i + 1] == amend_line(name, email, date_of(records[i].date)->Ok_0)
    } by {
        assert((2 * i) / 2 == i && (2 * i) % 2 == 0);
        assert((2 * i + 1) / 2 == i && (2 * i + 1) % 2 == 1);
    }
}

/// Making a script is a function of the records and the identity: two
/// outcomes for the same input are the same, text for text.
pub proof fn lemma_script_deterministic(
    records: Seq<CommitDataView>,
    name: Seq<char>,
    email: Seq<char>,
    first: Result<String, SequenceError>,
    second: Result<String, SequenceError>,
)
    requires
        is_script_of(records, name, email, first),
        is_script_of(records, name, email, second),
    ensures
        first is Ok <==> second is Ok,
        first is Ok ==> first->Ok_0@ == second->Ok_0@,
        first is Err ==> first->Err_0 == second->Err_0,
{
    if first is Err {
        let a = first->Err_0;
        assert(!plannable(records[a.index as int]));
        if second is Err {
            let b = second->Err_0;
            assert(!plannable(records[b.index as int]));
            if a.index < b.index {
                assert(records.take(b.index as int)[a.index as int] == records[a.index as int]);
            } else if b.index < a.index {
                assert(records.take(a.index as int)[b.index as int] == records[b.index as int]);
            }
        }
    } else if second is Err {
        let b = second->Err_0;
        assert(!plannable(records[b.index as int]));
    }
}

/// A history without commits has the empty script, and making it cannot
/// fail.
pub proof fn lemma_empty_history(
    name: Seq<char>,
    email: Seq<char>,
    outcome: Result<String, SequenceError>,
)
    requires
        is_script_of(Seq::<CommitDataView>::empty(), name, email, outcome),
    ensures
        outcome is Ok,
        outcome->Ok_0@ == Seq::<char>::empty(),
{
    assert(planned_lines(Seq::<CommitDataView>::empty(), name, email) =~= Seq::<Seq<char>>::empty());
}

} // verus!
