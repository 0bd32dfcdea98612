//! The compiled query and the editable query line.
//!
//! A query is the whitespace-split list of its sub-patterns; a line matches
//! when every sub-pattern matches. The editor is a character buffer with a
//! cursor, driven by control keys.

use vstd::prelude::*;
use vstd::string::*;

use crate::key::Key;
use crate::pattern::{is_subseq, lower_seq, patterns_from_str, split_ws, Pattern};

verus! {

/// Whether the query text `qs` matches the line characters `hay`: every
/// whitespace-separated token of `qs` is, lowercased, a subsequence of the
/// lowercased `hay`.
pub open spec fn query_matches(qs: Seq<char>, hay: Seq<char>) -> bool {
    forall|j: int| 0 <= j < split_ws(qs).len() ==> is_subseq(
        lower_seq(#[trigger] split_ws(qs)[j]),
        lower_seq(hay),
    )
}

/// An immutable compiled query.
pub struct Query {
    patterns: Vec<Pattern>,
    string: String,
}

impl View for Query {
    type V = Seq<char>;

    closed spec fn view(&self) -> Seq<char> {
        self.string@
    }
}

impl Query {
    /// The patterns are exactly the lowercased tokens of the string.
    pub closed spec fn wf(self) -> bool {
        &&& self.patterns@.len() == split_ws(self.string@).len()
        &&& forall|j: int| 0 <= j < self.patterns@.len() ==> self.patterns@[j].chars@ == lower_seq(
            #[trigger] split_ws(self.string@)[j],
        )
        &&& forall|j: int| 0 <= j < self.patterns@.len() ==> (#[trigger] self.patterns@[j]).wf()
    }

    /// Compile a query string.
    pub fn new(string: String) -> (q: Query)
        ensures
            q@ == string@,
            q.wf(),
    {
        let patterns = patterns_from_str(string.as_str());
        Query { patterns, string }
    }

    /// The raw query string.
    pub fn as_str(&self) -> (r: &str)
        ensures
            r@ == self@,
    {
        self.string.as_str()
    }

    /// Test the query against the characters of one line.
    pub fn test(&self, haystack: &[char]) -> (r: bool)
        requires
            self.wf(),
        ensures
            r == query_matches(self@, haystack@),
    {
        let mut j: usize = 0;
        let n = self.patterns.len();
        while j < n
            invariant
                0 <= j <= n,
                n == self.patterns@.len(),
                self.wf(),
                forall|k: int| 0 <= k < j ==> is_subseq(
                    lower_seq(#[trigger] split_ws(self@)[k]),
                    lower_seq(haystack@),
                ),
            decreases n - j,
        {
            if !self.patterns[j].test(haystack) {
                proof {
                    assert(self.patterns@[j as int].chars@ == lower_seq(
                        split_ws(self@)[j as int],
                    ));
                }
                return false;
            }
            j = j + 1;
        }
        true
    }
}

/// Abstract value of the editor: its text and the cursor position,
/// counted in characters from the start.
pub struct QueryEditorV {
    pub text: Seq<char>,
    pub cursor: int,
}

/// Index of the last non-space character strictly before `end`, or 0.
pub open spec fn last_non_space_before(s: Seq<char>, end: int) -> int
    decreases end,
{
    if end <= 0 {
        0
    } else if s[end - 1] != ' ' {
        end - 1
    } else {
        last_non_space_before(s, end - 1)
    }
}

/// One past the last space strictly before `end`, or 0.
pub open spec fn after_last_space_before(s: Seq<char>, end: int) -> int
    decreases end,
{
    if end <= 0 {
        0
    } else if s[end - 1] == ' ' {
        end
    } else {
        after_last_space_before(s, end - 1)
    }
}

/// The editor state after one key.
pub open spec fn edit(e: QueryEditorV, key: Key) -> QueryEditorV {
    match key {
        Key::CtrlA => QueryEditorV { text: e.text, cursor: 0 },
        Key::CtrlB => QueryEditorV {
            text: e.text,
            cursor: if e.cursor > 0 {
                e.cursor - 1
            } else {
                0
            },
        },
        Key::CtrlD => if e.cursor < e.text.len() {
            QueryEditorV { text: e.text.remove(e.cursor), cursor: e.cursor }
        } else {
            e
        },
        Key::CtrlE => QueryEditorV { text: e.text, cursor: e.text.len() as int },
        Key::CtrlF => QueryEditorV {
            text: e.text,
            cursor: if e.cursor < e.text.len() {
                e.cursor + 1
            } else {
                e.cursor
            },
        },
        Key::CtrlH => edit_backspace(e),
        Key::Del => edit_backspace(e),
        Key::CtrlK => QueryEditorV { text: e.text.take(e.cursor), cursor: e.cursor },
        Key::CtrlW => {
            let word_end = last_non_space_before(e.text, e.cursor);
            let word_start = after_last_space_before(e.text, word_end);
            QueryEditorV { text: e.text.take(word_start), cursor: word_start }
        },
        Key::Char(c) => if e.text.len() < usize::MAX {
            QueryEditorV { text: e.text.insert(e.cursor, c), cursor: e.cursor + 1 }
        } else {
            e
        },
        _ => e,
    }
}

/// Deleting the character before the cursor.
pub open spec fn edit_backspace(e: QueryEditorV) -> QueryEditorV {
    if e.cursor > 0 {
        QueryEditorV { text: e.text.remove(e.cursor - 1), cursor: e.cursor - 1 }
    } else {
        e
    }
}

/// Relies on `String::push`: appends exactly the given character.
#[verifier::external_body]
fn push_char(s: &mut String, c: char)
    ensures
        final(s)@ == old(s)@.push(c),
{
    s.push(c);
}

/// The mutable query line, edited only by the state reducer.
pub struct QueryEditor {
    string: String,
    cursor: usize,
}

impl View for QueryEditor {
    type V = QueryEditorV;

    closed spec fn view(&self) -> QueryEditorV {
        QueryEditorV { text: self.string@, cursor: self.cursor as int }
    }
}

impl QueryEditor {
    /// The cursor sits within the text.
    pub open spec fn wf(self) -> bool {
        0 <= self@.cursor <= self@.text.len()
    }

    /// An editor holding `string`, with the cursor at its end.
    pub fn new(string: &str) -> (e: QueryEditor)
        ensures
            e@.text == string@,
            e@.cursor == string@.len(),
            e.wf(),
    {
        let n: usize = string.unicode_len();
        QueryEditor { string: String::from_str(string), cursor: n }
    }

    /// The cursor position, in characters.
    pub fn cursor_position(&self) -> (r: usize)
        ensures
            r == self@.cursor,
    {
        self.cursor
    }

    /// The current text.
    pub fn as_str(&self) -> (r: &str)
        ensures
            r@ == self@.text,
    {
        self.string.as_str()
    }

    /// The compiled form of the current text.
    pub fn query(&self) -> (q: Query)
        ensures
            q@ == self@.text,
            q.wf(),
    {
        Query::new(self.string.clone())
    }

    /// Apply one key to the editor.
    pub fn put_key(&mut self, key: Key)
        requires
            old(self).wf(),
        ensures
            final(self)@ == edit(old(self)@, key),
            final(self).wf(),
    {
        let n: usize = self.string.as_str().unicode_len();
        match key {
            Key::CtrlA => {
                self.cursor = 0;
            },
            Key::CtrlB => {
                if self.cursor > 0 {
                    self.cursor = self.cursor - 1;
                }
            },
            Key::CtrlD => {
                if self.cursor < n {
                    let c = self.cursor;
                    self.remove_char(c);
                }
            },
            Key::CtrlE => {
                self.cursor = n;
            },
            Key::CtrlF => {
                if self.cursor < n {
                    self.cursor = self.cursor + 1;
                }
            },
            Key::CtrlH => {
                if self.cursor > 0 {
                    let c = self.cursor;
                    self.remove_char(c - 1);
                    self.cursor = c - 1;
                }
            },
            Key::Del => {
                if self.cursor > 0 {
                    let c = self.cursor;
                    self.remove_char(c - 1);
                    self.cursor = c - 1;
                }
            },
            Key::CtrlK => {
                let c = self.cursor;
                self.truncate_chars(c);
            },
            Key::CtrlW => {
                let word_end = self.scan_last_non_space(self.cursor);
                let word_start = self.scan_after_last_space(word_end);
                self.truncate_chars(word_start);
                self.cursor = word_start;
            },
            Key::Char(ch) => {
                if n < usize::MAX {
                    let c = self.cursor;
                    self.insert_char(c, ch);
                    self.cursor = c + 1;
                }
            },
            _ => {},
        }
    }

    /// Remove the character at position `i`; the cursor field is untouched.
    fn remove_char(&mut self, i: usize)
        requires
            i < old(self)@.text.len(),
        ensures
            final(self)@.text == old(self)@.text.remove(i as int),
            final(self)@.cursor == old(self)@.cursor,
    {
        let n: usize = self.string.as_str().unicode_len();
        let mut t = String::from_str(self.string.as_str().substring_char(0, i));
        t.append(self.string.as_str().substring_char(i + 1, n));
        proof {
            assert(old(self)@.text.subrange(0, i as int) + old(self)@.text.subrange(
                i + 1,
                n as int,
            ) =~= old(self)@.text.remove(i as int));
        }
        self.string = t;
    }

    /// Insert `ch` at position `i`; the cursor field is untouched.
    fn insert_char(&mut self, i: usize, ch: char)
        requires
            i <= old(self)@.text.len(),
        ensures
            final(self)@.text == old(self)@.text.insert(i as int, ch),
            final(self)@.cursor == old(self)@.cursor,
    {
        let n: usize = self.string.as_str().unicode_len();
        let mut t = String::from_str(self.string.as_str().substring_char(0, i));
        push_char(&mut t, ch);
        t.append(self.string.as_str().substring_char(i, n));
        proof {
            assert(old(self)@.text.subrange(0, i as int).push(ch) + old(self)@.text.subrange(
                i as int,
                n as int,
            ) =~= old(self)@.text.insert(i as int, ch));
        }
        self.string = t;
    }

    /// Keep only the first `i` characters; the cursor field is untouched.
    fn truncate_chars(&mut self, i: usize)
        requires
            i <= old(self)@.text.len(),
        ensures
            final(self)@.text == old(self)@.text.take(i as int),
            final(self)@.cursor == old(self)@.cursor,
    {
        let t = String::from_str(self.string.as_str().substring_char(0, i));
        proof {
            assert(old(self)@.text.subrange(0, i as int) =~= old(self)@.text.take(i as int));
        }
        self.string = t;
    }

    /// Index of the last non-space character strictly before `end`, or 0.
    fn scan_last_non_space(&self, end: usize) -> (r: usize)
        requires
            end <= self@.text.len(),
        ensures
            r == last_non_space_before(self@.text, end as int),
            r <= end,
    {
        let mut j: usize = end;
        while j > 0
            invariant
                0 <= j <= end <= self@.text.len(),
                last_non_space_before(self@.text, end as int) == last_non_space_before(
                    self@.text,
                    j as int,
                ),
            decreases j,
        {
            if self.string.as_str().get_char(j - 1) != ' ' {
                return j - 1;
            }
            j = j - 1;
        }
        0
    }

    /// One past the last space strictly before `end`, or 0.
    fn scan_after_last_space(&self, end: usize) -> (r: usize)
        requires
            end <= self@.text.len(),
        ensures
            r == after_last_space_before(self@.text, end as int),
            r <= end,
    {
        let mut j: usize = end;
        while j > 0
            invariant
                0 <= j <= end <= self@.text.len(),
                after_last_space_before(self@.text, end as int) == after_last_space_before(
                    self@.text,
                    j as int,
                ),
            decreases j,
        {
            if self.string.as_str().get_char(j - 1) == ' ' {
                return j;
            }
            j = j - 1;
        }
        0
    }
}

} // verus!
