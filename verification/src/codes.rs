//! The set-code list: one code per line, surrounding whitespace and blank
//! lines ignored.

use crate::text::{
    chars_of, is_space, joined, lemma_trimmed_idempotent, lemma_trimmed_is_core, trim_range,
    trimmed,
};
use vstd::prelude::*;

verus! {

/// The line feed that ends a line.
pub open spec fn line_feed() -> char {
    '\n'
}

/// How many characters of `s` stand before its first line feed.
pub open spec fn line_len(s: Seq<char>) -> nat
    decreases s.len(),
{
    if s.len() == 0 || s[0] == line_feed() {
        0
    } else {
        1 + line_len(s.skip(1))
    }
}

/// The lines of `s`: the pieces between line feeds, where a last piece
/// that is empty does not count.
pub open spec fn lines(s: Seq<char>) -> Seq<Seq<char>>
    decreases s.len(),
{
    if s.len() == 0 {
        Seq::empty()
    } else {
        let k = line_len(s);
        if k >= s.len() {
            seq![s]
        } else {
            seq![s.take(k as int)] + lines(s.skip(k as int + 1))
        }
    }
}

/// Trimming, as a function value.
pub open spec fn trimming() -> spec_fn(Seq<char>) -> Seq<char> {
    |line: Seq<char>| trimmed(line)
}

/// The test for a line that holds a code.
pub open spec fn nonblank() -> spec_fn(Seq<char>) -> bool {
    |line: Seq<char>| line.len() > 0
}

/// The set codes that the text `s` lists: its lines, trimmed, without the
/// blank ones, in the order of the text.
pub open spec fn set_codes(s: Seq<char>) -> Seq<Seq<char>> {
    lines(s).map_values(trimming()).filter(nonblank())
}

/// What one line contributes to the list: its trimmed text, or nothing.
pub open spec fn code_of(line: Seq<char>) -> Seq<Seq<char>> {
    if trimmed(line).len() > 0 {
        seq![trimmed(line)]
    } else {
        Seq::empty()
    }
}

/// What reading the code list gave.
#[derive(Clone, Debug, PartialEq, Eq)]
pub enum InputOutcome {
    /// There is no such file.
    Missing,
    /// The file is there and could not be opened or read.
    Unreadable { cause: String },
    /// The text of the file.
    Text { content: String },
}

/// Why there is no list of set codes.
#[derive(Clone, Debug, PartialEq, Eq)]
pub enum LoadError {
    /// The file at `path` does not exist.
    NotFound { path: String },
    /// The file at `path` could not be opened or read.
    Unreadable { path: String, cause: String },
}

/// An [`InputOutcome`] as plain values.
pub enum InputRead {
    Missing,
    Unreadable { cause: Seq<char> },
    Text { content: Seq<char> },
}

/// A [`LoadError`] as plain values.
pub enum LoadFailure {
    NotFound { path: Seq<char> },
    Unreadable { path: Seq<char>, cause: Seq<char> },
}

impl View for InputOutcome {
    type V = InputRead;

    open spec fn view(&self) -> InputRead {
        match self {
            InputOutcome::Missing => InputRead::Missing,
            InputOutcome::Unreadable { cause } => InputRead::Unreadable { cause: cause@ },
            InputOutcome::Text { content } => InputRead::Text { content: content@ },
        }
    }
}

impl View for LoadError {
    type V = LoadFailure;

    open spec fn view(&self) -> LoadFailure {
        match self {
            LoadError::NotFound { path } => LoadFailure::NotFound { path: path@ },
            LoadError::Unreadable { path, cause } => LoadFailure::Unreadable {
                path: path@,
                cause: cause@,
            },
        }
    }
}

impl DeepView for LoadError {
    type V = LoadFailure;

    open spec fn deep_view(&self) -> LoadFailure {
        self@
    }
}

/// What reading the file at `path` amounts to: the set codes of its text,
/// or the reason why there are none. A file without codes is no failure.
pub open spec fn loaded(path: Seq<char>, read: InputRead) -> Result<Seq<Seq<char>>, LoadFailure> {
    match read {
        InputRead::Missing => Err(LoadFailure::NotFound { path }),
        InputRead::Unreadable { cause } => Err(LoadFailure::Unreadable { path, cause }),
        InputRead::Text { content } => Ok(set_codes(content)),
    }
}

/// What a failure to load reads like.
pub open spec fn load_failure_text(failure: LoadFailure) -> Seq<char> {
    match failure {
        LoadFailure::NotFound { path } => "Error: Input file '"@ + path
            + "' not found. Please create it in the project root."@,
        LoadFailure::Unreadable { path, cause } => cause,
    }
}

/// Turns what reading the file at `path` gave into the list of set codes,
/// or into the reason why there is none.
pub fn load_set_codes(path: &str, outcome: &InputOutcome) -> (result: Result<
    Vec<String>,
    LoadError,
>)
    ensures
        match result {
            Ok(codes) => loaded(path@, outcome@) == Ok::<Seq<Seq<char>>, LoadFailure>(
                codes.deep_view(),
            ),
            Err(error) => loaded(path@, outcome@) == Err::<Seq<Seq<char>>, LoadFailure>(error@),
        },
{
    match outcome {
        InputOutcome::Missing => Err(LoadError::NotFound { path: path.to_owned() }),
        InputOutcome::Unreadable { cause } => Err(
            LoadError::Unreadable { path: path.to_owned(), cause: cause.clone() },
        ),
        InputOutcome::Text { content } => Ok(parse_set_codes(content.as_str())),
    }
}

impl LoadError {
    /// A line that tells the failure to a reader.
    pub fn describe(&self) -> (text: String)
        ensures
            text@ == load_failure_text(self@),
    {
        match self {
            LoadError::NotFound { path } => {
                let mut text = "Error: Input file '".to_owned();
                text.append(path.as_str());
                text.append("' not found. Please create it in the project root.");
                text
            },
            LoadError::Unreadable { path, cause } => cause.clone(),
        }
    }

    /// A copy of the failure.
    pub fn duplicate(&self) -> (copy: LoadError)
        ensures
            copy@ == self@,
    {
        match self {
            LoadError::NotFound { path } => LoadError::NotFound { path: path.clone() },
            LoadError::Unreadable { path, cause } => LoadError::Unreadable {
                path: path.clone(),
                cause: cause.clone(),
            },
        }
    }
}

/// Reads the set codes out of the text of a code list.
pub fn parse_set_codes(content: &str) -> (codes: Vec<String>)
    ensures
        codes.deep_view() == set_codes(content@),
{
    let cs = chars_of(content);
    let n = cs.len();
    let mut codes: Vec<String> = Vec::new();
    let mut start: usize = 0;
    assert(cs@.skip(0) == cs@);
    assert(codes.deep_view() == Seq::<Seq<char>>::empty());
    while start < n
        invariant
            start <= n,
            n == cs.len(),
            cs@ == content@,
            codes.deep_view() + set_codes(cs@.skip(start as int)) == set_codes(cs@),
        decreases n - start,
    {
        let ghost rest = cs@.skip(start as int);
        let mut end: usize = start;
        while end < n && cs[end] != '\n'
            invariant
                start <= end <= n,
                n == cs.len(),
                forall|j: int| start <= j < end ==> cs@[j] != line_feed(),
            decreases n - end,
        {
            end += 1;
        }
        let (a, b) = trim_range(&cs, start, end);
        let ghost before = codes.deep_view();
        if a < b {
            codes.push(content.substring_char(a, b).to_owned());
        }
        proof {
            lemma_line_len_is(rest, end - start);
            lemma_set_codes_step(rest);
            assert(rest.take(end - start) == cs@.subrange(start as int, end as int));
            assert(codes.deep_view() == before + code_of(rest.take(end - start)));
            if end < n {
                assert(rest.skip(end - start + 1) == cs@.skip(end + 1));
            } else {
                assert(cs@.skip(n as int) == Seq::<char>::empty());
            }
        }
        start = if end < n {
            end + 1
        } else {
            n
        };
    }
    assert(cs@.skip(n as int) == Seq::<char>::empty());
    assert(codes.deep_view() + Seq::<Seq<char>>::empty() == codes.deep_view());
    codes
}

/// A code list of whole lines is read back line by line: joining lines
/// that hold no line feed, then reading the text, gives each non-blank line
/// trimmed, as many codes as there are such lines, in the order of the
/// lines. A line feed after the last line changes nothing.
pub proof fn lemma_codes_of_lines(ls: Seq<Seq<char>>)
    requires
        forall|i: int| 0 <= i < ls.len() ==> !(#[trigger] ls[i]).contains(line_feed()),
    ensures
        set_codes(joined(ls, seq![line_feed()])) == ls.map_values(trimming()).filter(nonblank()),
        set_codes(joined(ls, seq![line_feed()]) + seq![line_feed()]) == ls.map_values(
            trimming(),
        ).filter(nonblank()),
{
    let nl = seq![line_feed()];
    let blank = Seq::<char>::empty();
    lemma_lines_of_joined(ls);
    lemma_blank_last_is_dropped(ls);
    if ls.len() == 0 {
        // A line feed alone is one empty line.
        assert(joined(ls, nl) + nl == nl);
        assert(nl.take(0) == blank);
        assert(nl.skip(1) == blank);
        assert(lines(nl) == seq![blank]);
        assert(trimmed(blank) == blank);
        assert(lines(nl).map_values(trimming()) == seq![blank]);
        assert(seq![blank].drop_last() == Seq::<Seq<char>>::empty());
        assert(ls == Seq::<Seq<char>>::empty());
        reveal_with_fuel(Seq::filter, 2);
    } else {
        // With a line feed at its end, the text is that of the lines
        // followed by one empty line.
        let more = ls.push(blank);
        assert(more.drop_last() == ls);
        assert forall|i: int| 0 <= i < more.len() implies !(#[trigger] more[i]).contains(
            line_feed(),
        ) by {
            if i < ls.len() {
                assert(more[i] == ls[i]);
            }
        }
        lemma_lines_of_joined(more);
        assert(joined(more, nl) == joined(ls, nl) + nl + blank);
        assert(joined(ls, nl) + nl + blank == joined(ls, nl) + nl);
    }
}

/// Every code of a list is non-blank and carries no whitespace at either
/// end; blank lines leave no trace.
pub proof fn lemma_codes_are_trimmed(s: Seq<char>, i: int)
    requires
        0 <= i < set_codes(s).len(),
    ensures
        set_codes(s)[i].len() > 0,
        trimmed(set_codes(s)[i]) == set_codes(s)[i],
        !is_space(set_codes(s)[i].first()),
        !is_space(set_codes(s)[i].last()),
{
    let all = lines(s).map_values(trimming());
    all.lemma_filter_pred(nonblank(), i);
    let code = set_codes(s)[i];
    assert(all.filter(nonblank()).contains(code));
    all.lemma_filter_contains_rev(nonblank(), code);
    let j = choose|j: int| 0 <= j < all.len() && all[j] == code;
    assert(code == trimmed(lines(s)[j]));
    lemma_trimmed_idempotent(lines(s)[j]);
    lemma_trimmed_is_core(lines(s)[j]);
}

/// The place of the first line feed, told by what stands before it.
proof fn lemma_line_len_is(s: Seq<char>, k: int)
    requires
        0 <= k <= s.len(),
        forall|j: int| 0 <= j < k ==> s[j] != line_feed(),
        k < s.len() ==> s[k] == line_feed(),
    ensures
        line_len(s) == k,
    decreases k,
{
    if k > 0 {
        assert forall|j: int| 0 <= j < k - 1 implies s.skip(1)[j] != line_feed() by {
            assert(s.skip(1)[j] == s[j + 1]);
        }
        lemma_line_len_is(s.skip(1), k - 1);
    }
}

/// The codes of a text are those of its first line, then those of the rest.
proof fn lemma_set_codes_step(s: Seq<char>)
    requires
        s.len() > 0,
    ensures
        line_len(s) <= s.len(),
        set_codes(s) == code_of(s.take(line_len(s) as int)) + (if line_len(s) < s.len() {
            set_codes(s.skip(line_len(s) as int + 1))
        } else {
            Seq::empty()
        }),
{
    lemma_line_len_bound(s);
    let k = line_len(s);
    let head = s.take(k as int);
    let tail = if k < s.len() {
        lines(s.skip(k as int + 1))
    } else {
        Seq::empty()
    };
    if k >= s.len() {
        assert(head == s);
    }
    assert(lines(s) == seq![head] + tail);
    assert(lines(s).map_values(trimming()) == seq![trimmed(head)] + tail.map_values(trimming()));
    tail.map_values(trimming()).lemma_filter_prepend(trimmed(head), nonblank());
    assert(tail.map_values(trimming()).filter(nonblank()) == (if k < s.len() {
        set_codes(s.skip(k as int + 1))
    } else {
        Seq::<Seq<char>>::empty()
    })) by {
        if k >= s.len() {
            reveal_with_fuel(Seq::filter, 1);
        }
    }
}

proof fn lemma_line_len_bound(s: Seq<char>)
    ensures
        line_len(s) <= s.len(),
        forall|j: int| 0 <= j < line_len(s) ==> s[j] != line_feed(),
        line_len(s) < s.len() ==> s[line_len(s) as int] == line_feed(),
    decreases s.len(),
{
    if !(s.len() == 0 || s[0] == line_feed()) {
        lemma_line_len_bound(s.skip(1));
        let inner = line_len(s.skip(1));
        if inner < s.skip(1).len() {
            assert(s.skip(1)[inner as int] == s[inner as int + 1]);
        }
        assert forall|j: int| 0 <= j < line_len(s) implies s[j] != line_feed() by {
            if j > 0 {
                assert(s[j] == s.skip(1)[j - 1]);
            }
        }
    }
}

/// Joined text, read from its first part on.
proof fn lemma_joined_from_first(ls: Seq<Seq<char>>, sep: Seq<char>)
    requires
        ls.len() >= 2,
    ensures
        joined(ls, sep) == ls[0] + sep + joined(ls.skip(1), sep),
    decreases ls.len(),
{
    let front = ls.drop_last();
    let back = ls.skip(1);
    assert(joined(ls, sep) == joined(front, sep) + sep + ls.last());
    assert(back.last() == ls.last());
    assert(front[0] == ls[0]);
    if ls.len() == 2 {
        assert(joined(front, sep) == ls[0]);
        assert(joined(back, sep) == ls.last());
    } else {
        lemma_joined_from_first(front, sep);
        assert(front.skip(1) == back.drop_last());
        let mid = joined(back.drop_last(), sep);
        assert(joined(back, sep) == mid + sep + ls.last());
        assert((ls[0] + sep + mid) + sep + ls.last() == ls[0] + sep + (mid + sep + ls.last()));
    }
}

/// The lines to which a joined text is read back: all of them, but for a
/// last line that is empty.
pub open spec fn without_blank_end(ls: Seq<Seq<char>>) -> Seq<Seq<char>> {
    if ls.len() > 0 && ls.last().len() == 0 {
        ls.drop_last()
    } else {
        ls
    }
}

proof fn lemma_lines_of_joined(ls: Seq<Seq<char>>)
    requires
        forall|i: int| 0 <= i < ls.len() ==> !(#[trigger] ls[i]).contains(line_feed()),
    ensures
        lines(joined(ls, seq![line_feed()])) == without_blank_end(ls),
    decreases ls.len(),
{
    let nl = seq![line_feed()];
    let text = joined(ls, nl);
    if ls.len() == 0 {
    } else if ls.len() == 1 {
        if ls[0].len() > 0 {
            assert forall|j: int| 0 <= j < text.len() implies text[j] != line_feed() by {
                assert(ls[0].contains(text[j]));
            }
            lemma_line_len_is(text, text.len() as int);
            assert(seq![text] == ls);
        } else {
            assert(ls.drop_last() == Seq::<Seq<char>>::empty());
        }
    } else {
        let first = ls[0];
        let rest = ls.skip(1);
        lemma_joined_from_first(ls, nl);
        let rest_text = joined(rest, nl);
        assert(text == first + nl + rest_text);
        assert forall|j: int| 0 <= j < first.len() implies text[j] != line_feed() by {
            assert(first.contains(text[j]));
        }
        assert(text[first.len() as int] == line_feed());
        lemma_line_len_is(text, first.len() as int);
        assert(text.take(first.len() as int) == first);
        assert(text.skip(first.len() as int + 1) == rest_text);
        assert forall|i: int| 0 <= i < rest.len() implies !(#[trigger] rest[i]).contains(
            line_feed(),
        ) by {
            assert(rest[i] == ls[i + 1]);
        }
        lemma_lines_of_joined(rest);
        assert(lines(text) == seq![first] + without_blank_end(rest));
        assert(rest.last() == ls.last());
        if ls.last().len() == 0 {
            assert(seq![first] + rest.drop_last() == ls.drop_last());
        } else {
            assert(seq![first] + rest == ls);
        }
    }
}

/// A last line that is empty gives no code.
proof fn lemma_blank_last_is_dropped(ls: Seq<Seq<char>>)
    ensures
        without_blank_end(ls).map_values(trimming()).filter(nonblank()) == ls.map_values(
            trimming(),
        ).filter(nonblank()),
{
    if ls.len() > 0 && ls.last().len() == 0 {
        let all = ls.map_values(trimming());
        assert(trimmed(ls.last()) == ls.last());
        assert(all.drop_last() == ls.drop_last().map_values(trimming()));
        assert(!nonblank()(all.last()));
        reveal_with_fuel(Seq::filter, 1);
    }
}

} // verus!
