//! Text building blocks: characters in and out of strings, lines joined and
//! split, suffixes, and quoting for a POSIX shell.

use vstd::prelude::*;

verus! {

/// `String::push` appends one character to the end of the string.
pub assume_specification[ String::push ](s: &mut String, c: char)
    ensures
        final(s)@ == old(s)@.push(c),
;

/// The line break that separates the lines of a script.
pub open spec fn line_break() -> char {
    '\n'
}

/// The lines joined by single line breaks, with none after the last.
pub open spec fn join_lines(lines: Seq<Seq<char>>) -> Seq<char>
    decreases lines.len(),
{
    if lines.len() == 0 {
        Seq::empty()
    } else if lines.len() == 1 {
        lines[0]
    } else {
        join_lines(lines.drop_last()) + seq![line_break()] + lines.last()
    }
}

/// The pieces of a text between its line breaks; a text without one is a
/// single piece.
pub open spec fn split_lines(text: Seq<char>) -> Seq<Seq<char>>
    decreases text.len(),
{
    if text.len() == 0 {
        seq![Seq::empty()]
    } else if text.last() == line_break() {
        split_lines(text.drop_last()).push(Seq::empty())
    } else {
        let before = split_lines(text.drop_last());
        before.drop_last().push(before.last().push(text.last()))
    }
}

/// The lines that a text holds: none for the empty text, else its pieces.
pub open spec fn lines_of(text: Seq<char>) -> Seq<Seq<char>> {
    if text.len() == 0 {
        Seq::empty()
    } else {
        split_lines(text)
    }
}

/// The text holds no line break.
pub open spec fn single_line(text: Seq<char>) -> bool {
    !text.contains(line_break())
}

/// No line holds a line break.
pub open spec fn unbroken(lines: Seq<Seq<char>>) -> bool {
    forall|k: int| 0 <= k < lines.len() ==> single_line(#[trigger] lines[k])
}

/// Two texts without a line break make one without a line break.
pub proof fn lemma_single_line_concat(a: Seq<char>, b: Seq<char>)
    requires
        single_line(a),
        single_line(b),
    ensures
        single_line(a + b),
{
    assert forall|i: int| 0 <= i < (a + b).len() implies (a + b)[i] != line_break() by {
        if i < a.len() {
            assert(a.contains(a[i]));
        } else {
            assert(b.contains(b[i - a.len()]));
        }
    }
}

/// Splitting a text followed by a line break and an unbroken tail gives the
/// pieces of the text and then the tail.
pub proof fn lemma_split_append(head: Seq<char>, tail: Seq<char>)
    requires
        single_line(tail),
    ensures
        split_lines(head + seq![line_break()] + tail) == split_lines(head).push(tail),
    decreases tail.len(),
{
    let whole = head + seq![line_break()] + tail;
    if tail.len() == 0 {
        assert(whole.drop_last() =~= head);
        assert(tail =~= Seq::<char>::empty());
    } else {
        let shorter = tail.drop_last();
        assert(tail[tail.len() - 1] == tail.last());
        assert(tail.contains(tail.last()));
        assert forall|c: char| shorter.contains(c) implies tail.contains(c) by {
            let i = choose|i: int| 0 <= i < shorter.len() && shorter[i] == c;
            assert(tail[i] == c);
        }
        lemma_split_append(head, shorter);
        assert(whole.drop_last() =~= head + seq![line_break()] + shorter);
        assert(whole.last() == tail.last());
        let before = split_lines(whole.drop_last());
        assert(before == split_lines(head).push(shorter));
        assert(before.drop_last() =~= split_lines(head));
        assert(before.last().push(tail.last()) =~= tail);
    }
}

/// A text without a line break is its own single piece.
pub proof fn lemma_split_unbroken(text: Seq<char>)
    requires
        single_line(text),
    ensures
        split_lines(text) == seq![text],
    decreases text.len(),
{
    if text.len() == 0 {
        assert(text =~= Seq::<char>::empty());
    } else {
        let shorter = text.drop_last();
        assert(text[text.len() - 1] == text.last());
        assert(text.contains(text.last()));
        assert forall|c: char| shorter.contains(c) implies text.contains(c) by {
            let i = choose|i: int| 0 <= i < shorter.len() && shorter[i] == c;
            assert(text[i] == c);
        }
        lemma_split_unbroken(shorter);
        assert(shorter.push(text.last()) =~= text);
        assert(seq![shorter].drop_last().push(text) =~= seq![text]);
    }
}

/// Joining lines and splitting the text again gives the lines back, as long
/// as there is at least one line and none holds a line break.
pub proof fn lemma_split_join(lines: Seq<Seq<char>>)
    requires
        lines.len() >= 1,
        unbroken(lines),
    ensures
        split_lines(join_lines(lines)) == lines,
    decreases lines.len(),
{
    if lines.len() == 1 {
        lemma_split_unbroken(lines[0]);
        assert(seq![lines[0]] =~= lines);
    } else {
        let front = lines.drop_last();
        assert forall|k: int| 0 <= k < front.len() implies single_line(#[trigger] front[k]) by {
            assert(front[k] == lines[k]);
        }
        lemma_split_join(front);
        assert(lines[lines.len() - 1] == lines.last());
        lemma_split_append(join_lines(front), lines.last());
        assert(front.push(lines.last()) =~= lines);
    }
}

/// A joined text is at least as long as its first line.
pub proof fn lemma_join_length(lines: Seq<Seq<char>>)
    requires
        lines.len() >= 1,
    ensures
        join_lines(lines).len() >= lines[0].len(),
    decreases lines.len(),
{
    if lines.len() > 1 {
        lemma_join_length(lines.drop_last());
    }
}

/// The lines of a joined text are the lines that were joined, where none
/// holds a line break and the first is not empty.
pub proof fn lemma_lines_of_join(lines: Seq<Seq<char>>)
    requires
        unbroken(lines),
        lines.len() >= 1 ==> lines[0].len() > 0,
    ensures
        lines_of(join_lines(lines)) == lines,
{
    if lines.len() == 0 {
        assert(lines =~= Seq::<Seq<char>>::empty());
    } else {
        lemma_join_length(lines);
        lemma_split_join(lines);
    }
}

/// The characters of a string, in order.
pub fn chars_of(s: &str) -> (chars: Vec<char>)
    ensures
        chars@ == s@,
{
    let mut chars: Vec<char> = Vec::new();
    for c in it: s.chars()
        invariant
            it.seq() == s@,
            chars@ == s@.take(it.index() as int),
    {
        assert(s@.take(it.index() + 1) =~= s@.take(it.index() as int).push(c));
        chars.push(c);
    }
    assert(s@.take(s@.len() as int) =~= s@);
    chars
}

/// The string made of the first `end` of the given characters.
pub fn text_of(chars: &Vec<char>, end: usize) -> (s: String)
    requires
        end <= chars@.len(),
    ensures
        s@ == chars@.take(end as int),
{
    let mut s = String::new();
    let mut i: usize = 0;
    while i < end
        invariant
            i <= end <= chars@.len(),
            s@ == chars@.take(i as int),
        decreases end - i,
    {
        assert(chars@.take(i + 1) =~= chars@.take(i as int).push(chars@[i as int]));
        s.push(chars[i]);
        i = i + 1;
    }
    s
}

/// The texts of a sequence of strings, in the same order.
pub open spec fn texts(lines: Seq<String>) -> Seq<Seq<char>> {
    lines.map_values(|line: String| line@)
}

/// Joins lines by single line breaks, with none after the last.
pub fn join_with_breaks(lines: &Vec<String>) -> (joined: String)
    ensures
        joined@ == join_lines(texts(lines@)),
{
    let mut joined = String::new();
    let mut i: usize = 0;
    while i < lines.len()
        invariant
            i <= lines@.len(),
            joined@ == join_lines(texts(lines@).take(i as int)),
        decreases lines@.len() - i,
    {
        let ghost before = texts(lines@).take(i as int);
        let ghost now = texts(lines@).take(i + 1);
        assert(now.drop_last() =~= before);
        assert(now.last() == lines@[i as int]@);
        if i > 0 {
            joined.push('\n');
        }
        joined.append(lines[i].as_str());
        assert(joined@ =~= join_lines(now));
        i = i + 1;
    }
    assert(texts(lines@).take(lines@.len() as int) =~= texts(lines@));
    joined
}

/// `part` stands in `text` from position `start` on, character by character.
pub open spec fn part_at(text: Seq<char>, part: Seq<char>, start: int) -> bool {
    0 <= start && start + part.len() <= text.len() && text.subrange(start, start + part.len())
        == part
}

/// `part` stands somewhere in `text`, its characters side by side.
pub open spec fn has_part(text: Seq<char>, part: Seq<char>) -> bool {
    exists|start: int| part_at(text, part, start)
}

/// `text` ends with `suffix`.
pub open spec fn has_suffix(text: Seq<char>, suffix: Seq<char>) -> bool {
    suffix.len() <= text.len() && text.skip(text.len() - suffix.len()) == suffix
}

/// Tells whether `text` ends with `suffix`.
pub fn ends_with(text: &str, suffix: &str) -> (found: bool)
    ensures
        found == has_suffix(text@, suffix@),
{
    let whole = chars_of(text);
    let end = chars_of(suffix);
    if end.len() > whole.len() {
        return false;
    }
    let start: usize = whole.len() - end.len();
    let ghost tail = text@.skip(start as int);
    let mut i: usize = 0;
    while i < end.len()
        invariant
            whole@ == text@,
            end@ == suffix@,
            start + end@.len() == whole@.len() <= usize::MAX,
            tail == text@.skip(start as int),
            i <= end@.len(),
            forall|k: int| 0 <= k < i ==> tail[k] == suffix@[k],
        decreases end@.len() - i,
    {
        if whole[start + i] != end[i] {
            assert(tail[i as int] != suffix@[i as int]);
            return false;
        }
        i = i + 1;
    }
    assert(tail =~= suffix@);
    true
}

/// What stands for one single quote inside a single-quoted shell word: the
/// quote is closed, an escaped quote follows, and the quote is opened again.
pub open spec fn escaped_quote() -> Seq<char> {
    seq!['\'', '\\', '\'', '\'']
}

/// The text with every single quote replaced by `escaped_quote()`.
pub open spec fn escaped(text: Seq<char>) -> Seq<char>
    decreases text.len(),
{
    if text.len() == 0 {
        Seq::empty()
    } else if text.last() == '\'' {
        escaped(text.drop_last()) + escaped_quote()
    } else {
        escaped(text.drop_last()).push(text.last())
    }
}

/// The text as one single-quoted word of a POSIX shell.
pub open spec fn shell_quoted(text: Seq<char>) -> Seq<char> {
    seq!['\''] + escaped(text) + seq!['\'']
}

/// Quotes a text so that a POSIX shell reads it back as one word with the
/// same characters, whatever the text holds.
pub fn shell_quote(text: &str) -> (word: String)
    ensures
        word@ == shell_quoted(text@),
{
    let mut word = String::new();
    word.push('\'');
    for c in it: text.chars()
        invariant
            it.seq() == text@,
            word@ == seq!['\''] + escaped(text@.take(it.index() as int)),
    {
        let ghost before = text@.take(it.index() as int);
        let ghost now = text@.take(it.index() + 1);
        assert(now.drop_last() =~= before);
        assert(now.last() == c);
        if c == '\'' {
            word.push('\'');
            word.push('\\');
            word.push('\'');
            word.push('\'');
            assert(word@ =~= seq!['\''] + escaped(now));
        } else {
            word.push(c);
            assert(word@ =~= seq!['\''] + escaped(now));
        }
    }
    assert(text@.take(text@.len() as int) =~= text@);
    word.push('\'');
    assert(word@ =~= shell_quoted(text@));
    word
}

/// Escaping the parts of a text one after the other escapes the text.
pub proof fn lemma_escaped_concat(a: Seq<char>, b: Seq<char>)
    ensures
        escaped(a + b) == escaped(a) + escaped(b),
    decreases b.len(),
{
    if b.len() == 0 {
        assert(a + b =~= a);
        assert(escaped(a) + escaped(b) =~= escaped(a));
    } else {
        lemma_escaped_concat(a, b.drop_last());
        assert((a + b).drop_last() =~= a + b.drop_last());
        assert((a + b).last() == b.last());
        if b.last() == '\'' {
            assert(escaped(a + b) =~= escaped(a) + escaped(b));
        } else {
            assert(escaped(a + b) =~= escaped(a) + escaped(b));
        }
    }
}

/// A quoted word holds a line break only where the text holds one.
pub proof fn lemma_quoted_single_line(text: Seq<char>)
    requires
        single_line(text),
    ensures
        single_line(escaped(text)),
        single_line(shell_quoted(text)),
    decreases text.len(),
{
    let quote = seq!['\''];
    assert(single_line(quote)) by {
        assert forall|i: int| 0 <= i < quote.len() implies quote[i] != line_break() by {}
    }
    if text.len() == 0 {
        assert(escaped(text) =~= Seq::<char>::empty());
    } else {
        let front = text.drop_last();
        assert(text[text.len() - 1] == text.last());
        assert(text.contains(text.last()));
        assert forall|i: int| 0 <= i < front.len() implies front[i] != line_break() by {
            assert(text.contains(text[i]));
        }
        lemma_quoted_single_line(front);
        let piece = if text.last() == '\'' {
            escaped_quote()
        } else {
            seq![text.last()]
        };
        assert(single_line(piece)) by {
            assert forall|i: int| 0 <= i < piece.len() implies piece[i] != line_break() by {}
        }
        assert(escaped(text) =~= escaped(front) + piece);
        lemma_single_line_concat(escaped(front), piece);
    }
    lemma_single_line_concat(quote, escaped(text));
    lemma_single_line_concat(quote + escaped(text), quote);
}

/// What a POSIX shell reads from the rest of a word once a single quote was
/// opened: every character stands for itself up to the next single quote,
/// which closes; a word that ends before that is not read at all.
pub open spec fn read_quoted(word: Seq<char>) -> Option<Seq<char>>
    decreases word.len(), 0nat,
{
    if word.len() == 0 {
        None
    } else if word[0] == '\'' {
        read_unquoted(word.skip(1))
    } else {
        match read_quoted(word.skip(1)) {
            Some(rest) => Some(seq![word[0]] + rest),
            None => None,
        }
    }
}

/// What a POSIX shell reads from a word outside of quotes, as far as this
/// crate writes such words: a single quote opens a quoted part, a backslash
/// makes the next character stand for itself, and the word may end. Any
/// other character is outside of what is modelled, and nothing is read.
pub open spec fn read_unquoted(word: Seq<char>) -> Option<Seq<char>>
    decreases word.len(), 1nat,
{
    if word.len() == 0 {
        Some(Seq::empty())
    } else if word[0] == '\'' {
        read_quoted(word.skip(1))
    } else if word[0] == '\\' && word.len() >= 2 {
        match read_unquoted(word.skip(2)) {
            Some(rest) => Some(seq![word[1]] + rest),
            None => None,
        }
    } else {
        None
    }
}

/// The text that a POSIX shell takes a word for.
pub open spec fn shell_read(word: Seq<char>) -> Option<Seq<char>> {
    read_unquoted(word)
}

proof fn lemma_read_escaped(text: Seq<char>)
    ensures
        read_quoted(escaped(text) + seq!['\'']) == Some(text),
    decreases text.len(),
{
    let close = seq!['\''];
    let nothing = Seq::<char>::empty();
    assert(escaped(nothing) =~= nothing);
    if text.len() == 0 {
        assert(text =~= nothing);
        assert(escaped(text) + close =~= close);
        assert(close.skip(1) =~= nothing);
        assert(read_unquoted(nothing) == Some(nothing));
    } else {
        let head = seq![text[0]];
        let rest = text.skip(1);
        assert(text =~= head + rest);
        lemma_escaped_concat(head, rest);
        lemma_read_escaped(rest);
        assert(head.drop_last() =~= nothing);
        assert(head.last() == text[0]);
        let tail = escaped(rest) + close;
        if text[0] == '\'' {
            assert(escaped(head) =~= escaped_quote());
            let word = escaped(text) + close;
            assert(word =~= escaped_quote() + tail);
            assert(word.skip(1) =~= seq!['\\', '\'', '\''] + tail);
            assert(word.skip(1).skip(2) =~= close + tail);
            assert((close + tail).skip(1) =~= tail);
            assert(read_unquoted(close + tail) == Some(rest));
            assert(word.skip(1)[1] == '\'');
            assert(read_unquoted(word.skip(1)) == Some(seq!['\''] + rest));
            assert(seq!['\''] + rest =~= text);
        } else {
            assert(escaped(head) =~= head);
            let word = escaped(text) + close;
            assert(word =~= head + tail);
            assert(word.skip(1) =~= tail);
            assert(word[0] == text[0]);
            assert(seq![word[0]] + rest =~= text);
        }
    }
}

/// Quoting is safe: a POSIX shell reads a quoted word back as the text that
/// was quoted, whatever characters the text holds.
pub proof fn lemma_shell_reads_quoted(text: Seq<char>)
    ensures
        shell_read(shell_quoted(text)) == Some(text),
{
    lemma_read_escaped(text);
    assert(shell_quoted(text).skip(1) =~= escaped(text) + seq!['\'']);
}

} // verus!
