//! The line editor: the line being typed, the cursor in it, and the
//! history that the arrow keys walk through.
use crate::lexer::{is_space, is_white_space};
use crate::sort::{ascending, sort_lines};
use crate::text::{chars_of, string_of};
use crate::tokens::words;
use vstd::prelude::*;

verus! {

/// An editing key, decoded from the characters the terminal sends.
#[derive(Clone, Copy, Debug, PartialEq, Eq, Structural)]
pub enum EditKey {
    /// A printable character, inserted at the cursor.
    Insert(char),
    /// Up arrow: the previous history entry.
    Up,
    /// Down arrow: the next history entry.
    Down,
    /// Left arrow or Ctrl-B.
    Left,
    /// Right arrow or Ctrl-F.
    Right,
    /// Escape and `b`: back to the start of a word.
    WordLeft,
    /// Escape and `f`: forward to the end of a word.
    WordRight,
    /// Ctrl-A: to the start of the line.
    Home,
    /// Ctrl-E: to the end of the line.
    End,
    /// Ctrl-D: delete the character under the cursor.
    Delete,
    /// Backspace: delete the character before the cursor.
    Backspace,
    /// Ctrl-K: delete from the cursor to the end.
    KillAfter,
    /// Ctrl-U: delete from the start to the cursor.
    KillBefore,
    /// Ctrl-L: clear the screen.
    Clear,
    /// Tab: complete the word before the cursor.
    Complete,
    /// Enter: the line is done.
    Submit,
    /// Anything else: ignored.
    Ignore,
}

/// The key that a character typed on its own stands for.
pub open spec fn plain_key(c: char) -> EditKey {
    if c == '\u{1}' {
        EditKey::Home
    } else if c == '\u{2}' {
        EditKey::Left
    } else if c == '\u{4}' {
        EditKey::Delete
    } else if c == '\u{5}' {
        EditKey::End
    } else if c == '\u{6}' {
        EditKey::Right
    } else if c == '\u{b}' {
        EditKey::KillAfter
    } else if c == '\u{c}' {
        EditKey::Clear
    } else if c == '\u{15}' {
        EditKey::KillBefore
    } else if c == '\t' {
        EditKey::Complete
    } else if c == '\n' || c == '\r' {
        EditKey::Submit
    } else if c == '\u{8}' {
        EditKey::Backspace
    } else if (c as u32) < 0x20 {
        EditKey::Ignore
    } else {
        EditKey::Insert(c)
    }
}

/// Decode a character that is not escape.
pub fn decode_plain(c: char) -> (r: EditKey)
    ensures
        r == plain_key(c),
{
    if c == '\u{1}' {
        EditKey::Home
    } else if c == '\u{2}' {
        EditKey::Left
    } else if c == '\u{4}' {
        EditKey::Delete
    } else if c == '\u{5}' {
        EditKey::End
    } else if c == '\u{6}' {
        EditKey::Right
    } else if c == '\u{b}' {
        EditKey::KillAfter
    } else if c == '\u{c}' {
        EditKey::Clear
    } else if c == '\u{15}' {
        EditKey::KillBefore
    } else if c == '\t' {
        EditKey::Complete
    } else if c == '\n' || c == '\r' {
        EditKey::Submit
    } else if c == '\u{8}' {
        EditKey::Backspace
    } else if (c as u32) < 0x20 {
        EditKey::Ignore
    } else {
        EditKey::Insert(c)
    }
}

/// The key of the escape sequence `ESC c` other than `ESC [`.
pub fn decode_escape(c: char) -> (r: EditKey)
    ensures
        c == 'b' ==> r == EditKey::WordLeft,
        c == 'f' ==> r == EditKey::WordRight,
        c != 'b' && c != 'f' ==> r == EditKey::Ignore,
{
    if c == 'b' {
        EditKey::WordLeft
    } else if c == 'f' {
        EditKey::WordRight
    } else {
        EditKey::Ignore
    }
}

/// The key of the escape sequence `ESC [ c`: the arrows.
pub fn decode_bracket(c: char) -> (r: EditKey)
    ensures
        c == 'A' ==> r == EditKey::Up,
        c == 'B' ==> r == EditKey::Down,
        c == 'C' ==> r == EditKey::Right,
        c == 'D' ==> r == EditKey::Left,
        c != 'A' && c != 'B' && c != 'C' && c != 'D' ==> r == EditKey::Ignore,
{
    if c == 'A' {
        EditKey::Up
    } else if c == 'B' {
        EditKey::Down
    } else if c == 'C' {
        EditKey::Right
    } else if c == 'D' {
        EditKey::Left
    } else {
        EditKey::Ignore
    }
}

/// The editor: history entries and the line being typed (the last entry),
/// which of them is shown, and the cursor in it.
pub struct LineEditor {
    lines: Vec<Vec<char>>,
    index: usize,
    cursor: usize,
}

/// The model of an editor.
pub struct EditorView {
    pub lines: Seq<Seq<char>>,
    pub index: int,
    pub cursor: int,
}

/// The length of `t` without white space at its end.
pub open spec fn trimmed_end(t: Seq<char>) -> int
    decreases t.len(),
{
    if t.len() > 0 && is_space(t.last()) {
        trimmed_end(t.drop_last())
    } else {
        t.len() as int
    }
}

/// The position after the last space among the first `n` characters, or 0.
pub open spec fn after_last_space(b: Seq<char>, n: int) -> int
    decreases n,
{
    if n <= 0 {
        0
    } else if b[n - 1] == ' ' {
        n
    } else {
        after_last_space(b, n - 1)
    }
}

/// The first position from `i` on that is not white space, or the end.
pub open spec fn skip_space(b: Seq<char>, i: int) -> int
    decreases b.len() - i,
{
    if i >= b.len() {
        b.len() as int
    } else if is_space(b[i]) {
        skip_space(b, i + 1)
    } else {
        i
    }
}

/// The first position from `i` on that holds a space, or the end.
pub open spec fn next_space(b: Seq<char>, i: int) -> int
    decreases b.len() - i,
{
    if i >= b.len() {
        b.len() as int
    } else if b[i] == ' ' {
        i
    } else {
        next_space(b, i + 1)
    }
}

/// Where a word to the left goes from `c`: after the last space before the
/// word that ends at the cursor, white space at the cursor skipped.
pub open spec fn word_left(b: Seq<char>, c: int) -> int {
    after_last_space(b, trimmed_end(b.subrange(0, c)))
}

/// Where a word to the right goes from `c`: to the space after the next
/// word, looking from the character after the cursor.
pub open spec fn word_right(b: Seq<char>, c: int) -> int {
    next_space(b, skip_space(b, c + 1))
}

/// The line shown.
pub open spec fn shown(e: EditorView) -> Seq<char> {
    e.lines[e.index]
}

/// The editor after a key (Tab and Enter leave it as it is): Up and Down
/// change the line shown and put the cursor at its end; the other keys move
/// the cursor or change the line shown.
pub open spec fn edit(e: EditorView, k: EditKey) -> EditorView {
    let b = shown(e);
    let c = e.cursor;
    let set_line = |nb: Seq<char>, nc: int| EditorView { lines: e.lines.update(e.index, nb), index: e.index, cursor: nc };
    match k {
        EditKey::Insert(x) => set_line(b.insert(c, x), c + 1),
        EditKey::Up => if e.index > 0 {
            EditorView { index: e.index - 1, cursor: e.lines[e.index - 1].len() as int, ..e }
        } else {
            e
        },
        EditKey::Down => if e.index + 1 < e.lines.len() {
            EditorView { index: e.index + 1, cursor: e.lines[e.index + 1].len() as int, ..e }
        } else {
            e
        },
        EditKey::Left => if c > 0 { EditorView { cursor: c - 1, ..e } } else { e },
        EditKey::Right => if c < b.len() { EditorView { cursor: c + 1, ..e } } else { e },
        EditKey::WordLeft => EditorView { cursor: word_left(b, c), ..e },
        EditKey::WordRight => if c < b.len() { EditorView { cursor: word_right(b, c), ..e } } else { e },
        EditKey::Home => EditorView { cursor: 0, ..e },
        EditKey::End => EditorView { cursor: b.len() as int, ..e },
        EditKey::Delete => if c < b.len() { set_line(b.remove(c), c) } else { e },
        EditKey::Backspace => if c > 0 { set_line(b.remove(c - 1), c - 1) } else { e },
        EditKey::KillAfter => set_line(b.subrange(0, c), c),
        EditKey::KillBefore => set_line(b.subrange(c, b.len() as int), 0),
        _ => e,
    }
}

/// The history entries, then an empty line to type in, shown at its start.
pub open spec fn start_view(history: Seq<Seq<char>>) -> EditorView {
    EditorView { lines: history.push(seq![]), index: history.len() as int, cursor: 0 }
}

/// The longest start that every suggestion shares.
pub open spec fn is_common_prefix(p: Seq<char>, words: Seq<Seq<char>>) -> bool {
    forall|i: int| 0 <= i < words.len() ==> p.len() <= (#[trigger] words[i]).len() && words[i].subrange(0, p.len() as int) == p
}

/// The longest start that `a` and `b` share.
pub open spec fn common2(a: Seq<char>, b: Seq<char>) -> Seq<char>
    decreases a.len(),
{
    if a.len() == 0 || b.len() == 0 || a[0] != b[0] {
        seq![]
    } else {
        seq![a[0]] + common2(a.drop_first(), b.drop_first())
    }
}

/// The longest start that all the words share.
pub open spec fn common_all(ws: Seq<Seq<char>>) -> Seq<char>
    decreases ws.len(),
{
    if ws.len() == 0 {
        seq![]
    } else if ws.len() == 1 {
        ws[0]
    } else {
        common2(common_all(ws.drop_last()), ws.last())
    }
}

/// What completing `word` offers, given the completer's suggestions: the
/// shared start of several suggestions alone when it adds to the word.
pub open spec fn choices(ws: Seq<Seq<char>>, word: Seq<char>) -> Seq<Seq<char>> {
    if ws.len() > 1 && common_all(ws).len() > 0 && common_all(ws) != word {
        seq![common_all(ws)]
    } else {
        ws
    }
}

/// The editor with the word before the cursor, which starts at `start`,
/// replaced by `s`, and the cursor after it.
pub open spec fn completed(e: EditorView, start: int, s: Seq<char>) -> EditorView {
    let b = shown(e);
    EditorView {
        lines: e.lines.update(e.index, b.subrange(0, start) + s + b.subrange(e.cursor, b.len() as int)),
        index: e.index,
        cursor: start + s.len(),
    }
}

/// `s` written `n` times.
pub open spec fn repeated(s: Seq<char>, n: nat) -> Seq<char>
    decreases n,
{
    if n == 0 {
        seq![]
    } else {
        repeated(s, (n - 1) as nat) + s
    }
}

/// The cursor-left escape sequence.
pub open spec fn cursor_left() -> Seq<char> {
    seq!['\u{1b}', '[', 'D']
}

/// What redraws the line: back to its start from `old_cursor`, clear to the
/// end, the line, and back to the cursor.
pub open spec fn refresh_text(old_cursor: nat, line: Seq<char>, cursor: nat) -> Seq<char> {
    repeated(cursor_left(), old_cursor) + seq!['\u{1b}', '[', '0', 'K'] + line + repeated(
        cursor_left(),
        (line.len() - cursor) as nat,
    )
}

/// What completing did.
#[derive(Clone, Debug, PartialEq, Eq)]
pub enum Completion {
    /// No suggestion: nothing changed.
    Nothing,
    /// The one suggestion replaced the word.
    Completed,
    /// Several suggestions, in order, to show.
    Choices(Vec<String>),
}

impl LineEditor {
    /// The model of this editor.
    pub closed spec fn view(&self) -> EditorView {
        EditorView { lines: self.lines@.map_values(|l: Vec<char>| l@), index: self.index as int, cursor: self.cursor as int }
    }

    /// The shown line exists and the cursor is within it.
    pub open spec fn wf(&self) -> bool {
        let v = self.view();
        &&& 0 <= v.index < v.lines.len()
        &&& 0 <= v.cursor <= v.lines[v.index].len()
    }

    /// An editor over the history, with an empty line to type in.
    pub fn new(history: &Vec<String>) -> (r: LineEditor)
        ensures
            r.wf(),
            r.view() == start_view(words(history@)),
    {
        let mut lines: Vec<Vec<char>> = Vec::new();
        let mut i: usize = 0;
        while i < history.len()
            invariant
                i <= history@.len(),
                lines@.map_values(|l: Vec<char>| l@) == words(history@).subrange(0, i as int),
            decreases history@.len() - i,
        {
            let ghost l0 = lines@.map_values(|l: Vec<char>| l@);
            let l = chars_of(history[i].as_str());
            lines.push(l);
            assert(lines@.map_values(|l: Vec<char>| l@) =~= l0.push(history@[i as int]@));
            i = i + 1;
            assert(lines@.map_values(|l: Vec<char>| l@) =~= words(history@).subrange(0, i as int));
        }
        let n = lines.len();
        let ghost l0 = lines@.map_values(|l: Vec<char>| l@);
        lines.push(Vec::new());
        let r = LineEditor { lines, index: n, cursor: 0 };
        assert(r.view().lines =~= l0.push(seq![]));
        assert(words(history@).subrange(0, i as int) =~= words(history@));
        r
    }

    /// The line shown.
    pub fn line(&self) -> (r: String)
        requires
            self.wf(),
        ensures
            r@ == shown(self.view()),
    {
        string_of(&self.lines[self.index])
    }

    /// The cursor's position in the line shown, in characters.
    pub fn cursor(&self) -> (r: usize)
        ensures
            r == self.view().cursor,
    {
        self.cursor
    }

    fn replace_line(&mut self, line: Vec<char>, cursor: usize)
        requires
            old(self).wf(),
            cursor <= line@.len(),
        ensures
            final(self).wf(),
            final(self).view() == (EditorView {
                lines: old(self).view().lines.update(old(self).view().index, line@),
                index: old(self).view().index,
                cursor: cursor as int,
            }),
    {
        let ghost l0 = self.view().lines;
        self.lines.set(self.index, line);
        self.cursor = cursor;
        assert(self.view().lines =~= l0.update(self.index as int, line@));
    }

    /// Apply an editing key.
    pub fn apply(&mut self, key: EditKey)
        requires
            old(self).wf(),
        ensures
            final(self).wf(),
            final(self).view() == edit(old(self).view(), key),
    {
        let ghost v = self.view();
        let len = self.lines[self.index].len();
        let c = self.cursor;
        match key {
            EditKey::Insert(x) => {
                let mut b = self.lines[self.index].clone();
                assert(b@ == v.lines[v.index]);
                b.insert(c, x);
                let bl = b.len();
                assert(c < bl);
                self.replace_line(b, c + 1);
            },
            EditKey::Up => {
                if self.index > 0 {
                    self.index = self.index - 1;
                    self.cursor = self.lines[self.index].len();
                }
            },
            EditKey::Down => {
                if self.index < self.lines.len() - 1 {
                    self.index = self.index + 1;
                    self.cursor = self.lines[self.index].len();
                }
            },
            EditKey::Left => {
                if c > 0 {
                    self.cursor = c - 1;
                }
            },
            EditKey::Right => {
                if c < len {
                    self.cursor = c + 1;
                }
            },
            EditKey::WordLeft => {
                let b = &self.lines[self.index];
                assert(b@ == v.lines[v.index]);
                let mut t = c;
                while t > 0 && is_white_space(b[t - 1])
                    invariant
                        t <= c,
                        c <= b@.len(),
                        trimmed_end(b@.subrange(0, t as int)) == trimmed_end(b@.subrange(0, c as int)),
                    decreases t,
                {
                    assert(b@.subrange(0, t as int).drop_last() =~= b@.subrange(0, t - 1));
                    t = t - 1;
                }
                assert(trimmed_end(b@.subrange(0, t as int)) == t);
                let mut p = t;
                while p > 0 && b[p - 1] != ' '
                    invariant
                        p <= t,
                        t <= b@.len(),
                        after_last_space(b@, p as int) == after_last_space(b@, t as int),
                    decreases p,
                {
                    p = p - 1;
                }
                self.cursor = p;
            },
            EditKey::WordRight => {
                if c < len {
                    let b = &self.lines[self.index];
                    assert(b@ == v.lines[v.index]);
                    let mut i = c + 1;
                    while i < len && is_white_space(b[i])
                        invariant
                            c < i <= len,
                            len == b@.len(),
                            skip_space(b@, i as int) == skip_space(b@, c + 1),
                        decreases len - i,
                    {
                        i = i + 1;
                    }
                    while i < len && b[i] != ' '
                        invariant
                            c < i <= len,
                            len == b@.len(),
                            next_space(b@, i as int) == word_right(b@, c as int),
                        decreases len - i,
                    {
                        i = i + 1;
                    }
                    self.cursor = i;
                }
            },
            EditKey::Home => {
                self.cursor = 0;
            },
            EditKey::End => {
                self.cursor = len;
            },
            EditKey::Delete => {
                if c < len {
                    let mut b = self.lines[self.index].clone();
                    assert(b@ == v.lines[v.index]);
                    b.remove(c);
                    self.replace_line(b, c);
                }
            },
            EditKey::Backspace => {
                if c > 0 {
                    let mut b = self.lines[self.index].clone();
                    assert(b@ == v.lines[v.index]);
                    b.remove(c - 1);
                    self.replace_line(b, c - 1);
                }
            },
            EditKey::KillAfter => {
                let mut b = self.lines[self.index].clone();
                assert(b@ == v.lines[v.index]);
                b.truncate(c);
                self.replace_line(b, c);
            },
            EditKey::KillBefore => {
                let b = &self.lines[self.index];
                let mut rest: Vec<char> = Vec::new();
                let mut i = c;
                while i < len
                    invariant
                        c <= i <= len,
                        len == b@.len(),
                        rest@ == b@.subrange(c as int, i as int),
                    decreases len - i,
                {
                    rest.push(b[i]);
                    i = i + 1;
                    assert(rest@ =~= b@.subrange(c as int, i as int));
                }
                assert(b@ == v.lines[v.index]);
                self.replace_line(rest, 0);
            },
            _ => {},
        }
        proof {
            let e = edit(v, key);
            assert(self.view().lines =~= e.lines);
        }
    }

    /// The text before the cursor, and where the word being completed starts
    /// in it: after the last space.
    pub fn completion_context(&self) -> (r: (String, usize))
        requires
            self.wf(),
        ensures
            r.0@ == shown(self.view()).subrange(0, self.view().cursor),
            r.1 as int == after_last_space(shown(self.view()), self.view().cursor),
    {
        let b = &self.lines[self.index];
        let mut section: Vec<char> = Vec::new();
        let mut i: usize = 0;
        while i < self.cursor
            invariant
                i <= self.cursor,
                self.cursor <= b@.len(),
                section@ == b@.subrange(0, i as int),
            decreases self.cursor - i,
        {
            section.push(b[i]);
            i = i + 1;
            assert(section@ =~= b@.subrange(0, i as int));
        }
        let mut p = self.cursor;
        while p > 0 && b[p - 1] != ' '
            invariant
                p <= self.cursor,
                self.cursor <= b@.len(),
                after_last_space(b@, p as int) == after_last_space(b@, self.cursor as int),
            decreases p,
        {
            p = p - 1;
        }
        (string_of(&section), p)
    }

    /// Complete the word before the cursor with the completer's suggestions.
    pub fn complete(&mut self, suggestions: &Vec<String>) -> (r: Completion)
        requires
            old(self).wf(),
        ensures
            final(self).wf(),
            ({
                let v = old(self).view();
                let b = shown(v);
                let start = after_last_space(b, v.cursor);
                let ch = choices(words(suggestions@), b.subrange(start, v.cursor));
                &&& ch.len() == 0 ==> r == Completion::Nothing && final(self).view() == v
                &&& ch.len() == 1 ==> r == Completion::Completed && final(self).view() == completed(v, start, ch[0])
                &&& ch.len() > 1 ==> r is Choices && final(self).view() == v && words(r->Choices_0@).to_multiset()
                    == ch.to_multiset() && ascending(words(r->Choices_0@))
            }),
    {
        let ghost v = self.view();
        let (_, start) = self.completion_context();
        let b = &self.lines[self.index];
        let ghost bv = b@;
        assert(bv == shown(v));
        let mut word: Vec<char> = Vec::new();
        let mut i = start;
        proof {
            lemma_after_last_space_bound(bv, v.cursor);
        }
        while i < self.cursor
            invariant
                start <= i <= self.cursor,
                self.cursor <= b@.len(),
                word@ == b@.subrange(start as int, i as int),
            decreases self.cursor - i,
        {
            word.push(b[i]);
            i = i + 1;
            assert(word@ =~= b@.subrange(start as int, i as int));
        }
        let ghost ws = words(suggestions@);
        let mut list: Vec<String> = Vec::new();
        if suggestions.len() > 1 {
            let mut common = chars_of(suggestions[0].as_str());
            let mut k: usize = 1;
            assert(ws.subrange(0, 1) =~= seq![ws[0]]);
            while k < suggestions.len()
                invariant
                    1 <= k <= suggestions@.len(),
                    ws == words(suggestions@),
                    common@ == common_all(ws.subrange(0, k as int)),
                decreases suggestions@.len() - k,
            {
                let other = chars_of(suggestions[k].as_str());
                let mut n: usize = 0;
                let ghost c0 = common@;
                assert(c0.subrange(0, c0.len() as int) =~= c0);
                assert(other@.subrange(0, other@.len() as int) =~= other@);
                assert(c0.subrange(0, 0) + common2(c0, other@) =~= common2(c0, other@));
                while n < common.len() && n < other.len() && common[n] == other[n]
                    invariant
                        n <= common@.len(),
                        n <= other@.len(),
                        common@ == c0,
                        common2(c0, other@) == c0.subrange(0, n as int) + common2(c0.subrange(n as int, c0.len() as int), other@.subrange(n as int, other@.len() as int)),
                    decreases common@.len() - n,
                {
                    proof {
                        let a = c0.subrange(n as int, c0.len() as int);
                        let bb = other@.subrange(n as int, other@.len() as int);
                        assert(a.drop_first() =~= c0.subrange(n + 1, c0.len() as int));
                        assert(bb.drop_first() =~= other@.subrange(n + 1, other@.len() as int));
                        assert(c0.subrange(0, n + 1) =~= c0.subrange(0, n as int) + seq![a[0]]);
                    }
                    n = n + 1;
                }
                proof {
                    let a = c0.subrange(n as int, c0.len() as int);
                    let bb = other@.subrange(n as int, other@.len() as int);
                    assert(common2(a, bb) =~= Seq::<char>::empty());
                    let q = ws.subrange(0, k + 1);
                    assert(q.drop_last() =~= ws.subrange(0, k as int));
                    assert(q.last() == other@);
                }
                common.truncate(n);
                assert(common@ =~= c0.subrange(0, n as int) + Seq::<char>::empty());
                k = k + 1;
            }
            assert(ws.subrange(0, k as int) =~= ws);
            let differs = !(common.len() == word.len() && same_chars(&common, &word));
            if common.len() > 0 && differs {
                list.push(string_of(&common));
                assert(words(list@) =~= seq![common@]);
            } else {
                list = copy_all(suggestions);
            }
        } else {
            list = copy_all(suggestions);
        }
        let ghost ch = words(list@);
        assert(ch == choices(ws, word@));
        if list.len() == 0 {
            return Completion::Nothing;
        }
        if list.len() == 1 {
            let s = chars_of(list[0].as_str());
            let mut line: Vec<char> = Vec::new();
            let mut j: usize = 0;
            while j < start
                invariant
                    j <= start,
                    start <= self.cursor,
                    self.cursor <= b@.len(),
                    line@ == b@.subrange(0, j as int),
                decreases start - j,
            {
                line.push(b[j]);
                j = j + 1;
                assert(line@ =~= b@.subrange(0, j as int));
            }
            let ghost l1 = line@;
            let mut j: usize = 0;
            while j < s.len()
                invariant
                    j <= s@.len(),
                    line@ == l1 + s@.subrange(0, j as int),
                decreases s@.len() - j,
            {
                line.push(s[j]);
                j = j + 1;
                assert(line@ =~= l1 + s@.subrange(0, j as int));
            }
            assert(s@.subrange(0, j as int) =~= s@);
            let new_cursor = line.len();
            let ghost l2 = line@;
            let mut j = self.cursor;
            let bl = b.len();
            while j < bl
                invariant
                    self.cursor <= j <= bl,
                    bl == b@.len(),
                    line@ == l2 + b@.subrange(self.cursor as int, j as int),
                decreases bl - j,
            {
                line.push(b[j]);
                j = j + 1;
                assert(line@ =~= l2 + b@.subrange(self.cursor as int, j as int));
            }
            self.replace_line(line, new_cursor);
            proof {
                let e = completed(v, start as int, ch[0]);
                assert(self.view().lines =~= e.lines);
            }
            return Completion::Completed;
        }
        let sorted = sort_lines(&list, false, false);
        Completion::Choices(sorted)
    }

    /// What redraws the line after a key, the cursor having been at
    /// `old_cursor` on the screen.
    pub fn refresh(&self, old_cursor: usize) -> (r: String)
        requires
            self.wf(),
        ensures
            r@ == refresh_text(old_cursor as nat, shown(self.view()), self.view().cursor as nat),
    {
        let b = &self.lines[self.index];
        let mut out: Vec<char> = Vec::new();
        push_left(&mut out, old_cursor);
        out.push('\u{1b}');
        out.push('[');
        out.push('0');
        out.push('K');
        let ghost o1 = out@;
        let mut i: usize = 0;
        while i < b.len()
            invariant
                i <= b@.len(),
                out@ == o1 + b@.subrange(0, i as int),
            decreases b@.len() - i,
        {
            out.push(b[i]);
            i = i + 1;
            assert(out@ =~= o1 + b@.subrange(0, i as int));
        }
        assert(b@.subrange(0, i as int) =~= b@);
        push_left(&mut out, b.len() - self.cursor);
        assert(out@ =~= refresh_text(old_cursor as nat, shown(self.view()), self.view().cursor as nat));
        string_of(&out)
    }
}

proof fn lemma_after_last_space_bound(b: Seq<char>, n: int)
    ensures
        n >= 0 ==> 0 <= after_last_space(b, n) <= n,
    decreases n,
{
    if n > 0 {
        lemma_after_last_space_bound(b, n - 1);
    }
}

fn same_chars(a: &Vec<char>, b: &Vec<char>) -> (r: bool)
    requires
        a@.len() == b@.len(),
    ensures
        r == (a@ == b@),
{
    let mut i: usize = 0;
    while i < a.len()
        invariant
            i <= a@.len(),
            a@.len() == b@.len(),
            a@.subrange(0, i as int) == b@.subrange(0, i as int),
        decreases a@.len() - i,
    {
        if a[i] != b[i] {
            return false;
        }
        assert(a@.subrange(0, i + 1) =~= a@.subrange(0, i as int).push(a@[i as int]));
        assert(b@.subrange(0, i + 1) =~= b@.subrange(0, i as int).push(b@[i as int]));
        i = i + 1;
    }
    assert(a@ =~= a@.subrange(0, i as int));
    assert(b@ =~= b@.subrange(0, i as int));
    true
}

fn copy_all(v: &Vec<String>) -> (r: Vec<String>)
    ensures
        words(r@) == words(v@),
{
    let mut r: Vec<String> = Vec::new();
    let mut i: usize = 0;
    while i < v.len()
        invariant
            i <= v@.len(),
            words(r@) == words(v@).subrange(0, i as int),
        decreases v@.len() - i,
    {
        let ghost r0 = words(r@);
        let x = v[i].clone();
        r.push(x);
        assert(words(r@) =~= r0.push(x@));
        i = i + 1;
        assert(words(r@) =~= words(v@).subrange(0, i as int));
    }
    assert(words(v@).subrange(0, i as int) =~= words(v@));
    r
}

fn push_left(out: &mut Vec<char>, n: usize)
    ensures
        final(out)@ == old(out)@ + repeated(cursor_left(), n as nat),
{
    let ghost o0 = out@;
    let mut i: usize = 0;
    while i < n
        invariant
            i <= n,
            out@ == o0 + repeated(cursor_left(), i as nat),
        decreases n - i,
    {
        out.push('\u{1b}');
        out.push('[');
        out.push('D');
        i = i + 1;
        assert(out@ =~= o0 + repeated(cursor_left(), i as nat));
    }
}

} // verus!
