//! The `.env` text format: one `KEY=value` assignment per line, with comments,
//! quoting and escapes.

use vstd::prelude::*;
use vstd::slice::slice_subrange;

use crate::text;
use crate::text::{extend, find_char, same, split_lines, starts_with, to_chars, to_text, trim};

verus! {

// ---------------------------------------------------------------------------
// Quoting
// ---------------------------------------------------------------------------

/// What stands for `c` between double quotes.
pub open spec fn escape_char(c: char) -> Seq<char> {
    if c == '\\' {
        seq!['\\', '\\']
    } else if c == '"' {
        seq!['\\', '"']
    } else if c == '\n' {
        seq!['\\', 'n']
    } else if c == '\r' {
        seq!['\\', 'r']
    } else if c == '\t' {
        seq!['\\', 't']
    } else {
        seq![c]
    }
}

/// `s` with an escape for each backslash, double quote, line feed, carriage return and tab.
pub open spec fn escaped(s: Seq<char>) -> Seq<char>
    decreases s.len(),
{
    if s.len() == 0 {
        Seq::empty()
    } else {
        escape_char(s[0]) + escaped(s.skip(1))
    }
}

/// `s` between double quotes.
pub open spec fn quoted(s: Seq<char>) -> Seq<char> {
    seq!['"'] + escaped(s) + seq!['"']
}

/// What a backslash and `c` stand for.
pub open spec fn unescape_char(c: char) -> char {
    if c == 'n' {
        '\n'
    } else if c == 'r' {
        '\r'
    } else if c == 't' {
        '\t'
    } else {
        c
    }
}

/// `s` with its escapes undone. A backslash at the very end stands for itself.
pub open spec fn unescaped(s: Seq<char>) -> Seq<char>
    decreases s.len(),
{
    if s.len() == 0 {
        Seq::empty()
    } else if s[0] != '\\' {
        seq![s[0]] + unescaped(s.skip(1))
    } else if s.len() == 1 {
        seq!['\\']
    } else {
        seq![unescape_char(s[1])] + unescaped(s.skip(2))
    }
}

/// Undoing the escapes of an escaped text gives the text back.
pub proof fn lemma_unescaped_escaped(s: Seq<char>)
    ensures
        unescaped(escaped(s)) == s,
    decreases s.len(),
{
    if s.len() > 0 {
        let rest = escaped(s.skip(1));
        let e = escaped(s);
        lemma_unescaped_escaped(s.skip(1));
        let n = escape_char(s[0]).len() as int;
        assert(e.skip(n) =~= rest);
        assert(unescaped(e) =~= seq![s[0]] + unescaped(rest));
        assert(seq![s[0]] + s.skip(1) =~= s);
    } else {
        assert(unescaped(escaped(s)) =~= s);
    }
}

/// Escaped text holds no line feed, no carriage return and no tab.
pub proof fn lemma_escaped_is_one_line(s: Seq<char>)
    ensures
        !escaped(s).contains('\n'),
        !escaped(s).contains('\r'),
        !escaped(s).contains('\t'),
    decreases s.len(),
{
    if s.len() > 0 {
        lemma_escaped_is_one_line(s.skip(1));
        let head = escape_char(s[0]);
        let rest = escaped(s.skip(1));
        assert forall|i: int| 0 <= i < escaped(s).len() implies #[trigger] escaped(s)[i] != '\n'
            && escaped(s)[i] != '\r' && escaped(s)[i] != '\t' by {
            if i >= head.len() {
                assert(escaped(s)[i] == rest[i - head.len()]);
                assert(rest.contains(rest[i - head.len()]));
            } else {
                assert(escaped(s)[i] == head[i]);
            }
        }
    }
}

/// `value` between double quotes, with its special characters escaped.
pub fn quote_env_value(value: &str) -> (r: String)
    ensures
        r@ == quoted(value@),
{
    let cs = to_chars(value);
    let mut out: Vec<char> = Vec::new();
    out.push('"');
    let mut i: usize = 0;
    assert(cs@.skip(0) =~= cs@);
    assert(out@ + escaped(cs@.skip(0)) =~= seq!['"'] + escaped(value@));
    while i < cs.len()
        invariant
            cs@ == value@,
            i <= cs@.len(),
            out@ + escaped(cs@.skip(i as int)) == seq!['"'] + escaped(value@),
        decreases cs@.len() - i,
    {
        let c = cs[i];
        let ghost before = out@;
        let ghost rest = cs@.skip(i as int);
        if c == '\\' {
            out.push('\\');
            out.push('\\');
        } else if c == '"' {
            out.push('\\');
            out.push('"');
        } else if c == '\n' {
            out.push('\\');
            out.push('n');
        } else if c == '\r' {
            out.push('\\');
            out.push('r');
        } else if c == '\t' {
            out.push('\\');
            out.push('t');
        } else {
            out.push(c);
        }
        assert(out@ =~= before + escape_char(c));
        assert(rest.skip(1) =~= cs@.skip(i + 1));
        assert(before + (escape_char(c) + escaped(rest.skip(1))) =~= out@ + escaped(
            cs@.skip(i + 1),
        ));
        i += 1;
    }
    assert(escaped(cs@.skip(i as int)) =~= Seq::<char>::empty());
    assert(out@ =~= seq!['"'] + escaped(value@));
    out.push('"');
    assert(out@ =~= quoted(value@));
    to_text(out.as_slice())
}

/// `value` with its escapes undone.
pub fn unescape_quoted_value(value: &[char]) -> (r: Vec<char>)
    ensures
        r@ == unescaped(value@),
{
    let mut out: Vec<char> = Vec::new();
    let mut i: usize = 0;
    assert(value@.skip(0) =~= value@);
    assert(out@ + unescaped(value@) =~= unescaped(value@));
    while i < value.len()
        invariant
            i <= value@.len(),
            out@ + unescaped(value@.skip(i as int)) == unescaped(value@),
        decreases value@.len() - i,
    {
        let c = value[i];
        let ghost before = out@;
        let ghost rest = value@.skip(i as int);
        if c != '\\' {
            out.push(c);
            assert(rest.skip(1) =~= value@.skip(i + 1));
            assert(before + (seq![c] + unescaped(rest.skip(1))) =~= out@ + unescaped(
                value@.skip(i + 1),
            ));
            i += 1;
        } else if i + 1 < value.len() {
            let d = value[i + 1];
            let u = if d == 'n' {
                '\n'
            } else if d == 'r' {
                '\r'
            } else if d == 't' {
                '\t'
            } else {
                d
            };
            out.push(u);
            assert(rest[1] == d);
            assert(rest.skip(2) =~= value@.skip(i + 2));
            assert(before + (seq![u] + unescaped(rest.skip(2))) =~= out@ + unescaped(
                value@.skip(i + 2),
            ));
            i += 2;
        } else {
            out.push('\\');
            assert(value@.skip(i + 1) =~= Seq::<char>::empty());
            assert(before + seq!['\\'] =~= out@ + unescaped(value@.skip(i + 1)));
            i += 1;
        }
    }
    assert(value@.skip(i as int) =~= Seq::<char>::empty());
    assert(out@ + unescaped(value@.skip(i as int)) =~= out@);
    out
}

/// What the text after `=` stands for: the contents of double quotes with the escapes undone,
/// the contents of single quotes as they are, and any other text as it is.
pub open spec fn env_value(v: Seq<char>) -> Seq<char> {
    if v.len() >= 2 && v[0] == '"' && v.last() == '"' {
        unescaped(v.subrange(1, v.len() - 1))
    } else if v.len() >= 2 && v[0] == '\'' && v.last() == '\'' {
        v.subrange(1, v.len() - 1)
    } else {
        v
    }
}

/// What the text after `=` stands for.
pub fn parse_env_value(value: &[char]) -> (r: Vec<char>)
    ensures
        r@ == env_value(value@),
{
    let n = value.len();
    if n >= 2 && value[0] == '"' && value[n - 1] == '"' {
        return unescape_quoted_value(slice_subrange(value, 1, n - 1));
    }
    let mut r: Vec<char> = Vec::new();
    if n >= 2 && value[0] == '\'' && value[n - 1] == '\'' {
        extend(&mut r, slice_subrange(value, 1, n - 1));
        assert(r@ =~= value@.subrange(1, n - 1));
    } else {
        extend(&mut r, value);
        assert(r@ =~= value@);
    }
    r
}

/// A quoted text is read as the text.
pub proof fn lemma_env_value_quoted(s: Seq<char>)
    ensures
        env_value(quoted(s)) == s,
{
    lemma_unescaped_escaped(s);
    let q = quoted(s);
    assert(q.subrange(1, q.len() - 1) =~= escaped(s));
}

// ---------------------------------------------------------------------------
// Lines
// ---------------------------------------------------------------------------

/// The key that is written before `=`: trimmed, and without a leading `export `.
pub open spec fn env_key(k: Seq<char>) -> Seq<char> {
    let t = text::trimmed(k);
    if text::has_prefix(t, "export "@) {
        t.skip("export "@.len() as int)
    } else {
        t
    }
}

/// The two sides of the first `=` of a trimmed line, unless the line is blank or a comment.
pub open spec fn assignment(line: Seq<char>) -> Option<(Seq<char>, Seq<char>)> {
    let t = text::trimmed(line);
    if t.len() == 0 || t[0] == '#' {
        None
    } else {
        text::split_once(t, '=')
    }
}

/// The key that a line assigns to, if it is an assignment.
pub open spec fn line_key(line: Seq<char>) -> Option<Seq<char>> {
    match assignment(line) {
        Some((k, _)) => Some(env_key(k)),
        None => None,
    }
}

/// The value that a line assigns, if it is an assignment.
pub open spec fn line_value(line: Seq<char>) -> Seq<char> {
    match assignment(line) {
        Some((_, v)) => env_value(text::trimmed(v)),
        None => Seq::empty(),
    }
}

/// What a sequence of lines assigns. Of two assignments to one key the later one holds.
pub open spec fn assigned(ls: Seq<Seq<char>>) -> Map<Seq<char>, Seq<char>>
    decreases ls.len(),
{
    if ls.len() == 0 {
        Map::empty()
    } else {
        let before = assigned(ls.drop_last());
        match line_key(ls.last()) {
            Some(k) => before.insert(k, line_value(ls.last())),
            None => before,
        }
    }
}

/// What an environment text assigns.
pub open spec fn env_map(source: Seq<char>) -> Map<Seq<char>, Seq<char>> {
    assigned(text::lines(source))
}

/// The key before `=`.
fn key_part(key: &[char]) -> (r: &[char])
    ensures
        r@ == env_key(key@),
{
    let t = trim(key);
    let export = to_chars("export ");
    if starts_with(t, export.as_slice()) {
        let r = slice_subrange(t, export.len(), t.len());
        assert(r@ =~= t@.skip(export@.len() as int));
        r
    } else {
        t
    }
}

/// The key of a line and the trimmed text of its value, if the line is an assignment.
pub fn parse_line(line: &[char]) -> (r: Option<(&[char], &[char])>)
    ensures
        match r {
            Some((k, v)) => line_key(line@) == Some(k@) && line_value(line@) == env_value(v@),
            None => line_key(line@) is None,
        },
{
    let t = trim(line);
    if t.len() == 0 || t[0] == '#' {
        return None;
    }
    let k = find_char(t, '=');
    if k == t.len() {
        return None;
    }
    let left = slice_subrange(t, 0, k);
    let right = slice_subrange(t, k + 1, t.len());
    assert(left@ =~= t@.take(k as int));
    assert(right@ =~= t@.skip(k + 1));
    Some((key_part(left), trim(right)))
}

/// A carriage return at the end of a line makes no difference to what the line assigns.
pub proof fn lemma_line_of_stripped(line: Seq<char>)
    ensures
        line_key(text::strip_cr(line)) == line_key(line),
        line_value(text::strip_cr(line)) == line_value(line),
{
    if line.len() > 0 && line.last() == '\r' {
        text::lemma_trimmed_push(line.drop_last(), '\r');
        assert(line.drop_last().push('\r') =~= line);
    }
}

// ---------------------------------------------------------------------------
// The values of an environment text
// ---------------------------------------------------------------------------

/// One key and its value.
pub struct EnvEntry {
    pub key: Vec<char>,
    pub value: Vec<char>,
}

/// The values that an environment text assigns, by key. No key occurs twice.
pub struct EnvValues {
    entries: Vec<EnvEntry>,
}

impl View for EnvValues {
    type V = Map<Seq<char>, Seq<char>>;

    closed spec fn view(&self) -> Map<Seq<char>, Seq<char>> {
        Map::new(
            |k: Seq<char>| exists|i: int| 0 <= i < self.entries@.len() && self.entries@[i].key@ == k,
            |k: Seq<char>|
                self.entries@[choose|i: int|
                    0 <= i < self.entries@.len() && self.entries@[i].key@ == k].value@,
        )
    }
}

impl EnvValues {
    /// No key occurs twice.
    pub closed spec fn well_formed(&self) -> bool {
        forall|i: int, j: int|
            0 <= i < j < self.entries@.len() ==> self.entries@[i].key@ != self.entries@[j].key@
    }

    proof fn lemma_at(&self, i: int)
        requires
            self.well_formed(),
            0 <= i < self.entries@.len(),
        ensures
            self@.contains_key(self.entries@[i].key@),
            self@[self.entries@[i].key@] == self.entries@[i].value@,
    {
        let k = self.entries@[i].key@;
        let j = choose|j: int| 0 <= j < self.entries@.len() && self.entries@[j].key@ == k;
        if j < i {
            assert(self.entries@[j].key@ != self.entries@[i].key@);
        } else if i < j {
            assert(self.entries@[i].key@ != self.entries@[j].key@);
        }
    }

    /// No values at all.
    pub fn new() -> (r: Self)
        ensures
            r.well_formed(),
            r@ == Map::<Seq<char>, Seq<char>>::empty(),
    {
        let r = EnvValues { entries: Vec::new() };
        assert(r@ =~= Map::<Seq<char>, Seq<char>>::empty());
        r
    }

    /// The value of `key`.
    pub fn lookup(&self, key: &[char]) -> (r: Option<&Vec<char>>)
        requires
            self.well_formed(),
        ensures
            match r {
                Some(v) => self@.contains_key(key@) && self@[key@] == v@,
                None => !self@.contains_key(key@),
            },
    {
        let mut i: usize = 0;
        while i < self.entries.len()
            invariant
                self.well_formed(),
                i <= self.entries@.len(),
                forall|j: int| 0 <= j < i ==> (#[trigger] self.entries@[j]).key@ != key@,
            decreases self.entries@.len() - i,
        {
            if same(self.entries[i].key.as_slice(), key) {
                proof {
                    self.lemma_at(i as int);
                }
                return Some(&self.entries[i].value);
            }
            i += 1;
        }
        None
    }

    /// The value of `key`.
    pub fn get(&self, key: &str) -> (r: Option<String>)
        requires
            self.well_formed(),
        ensures
            match r {
                Some(v) => self@.contains_key(key@) && self@[key@] == v@,
                None => !self@.contains_key(key@),
            },
    {
        let k = to_chars(key);
        match self.lookup(k.as_slice()) {
            Some(v) => Some(to_text(v.as_slice())),
            None => None,
        }
    }

    /// Assigns `value` to `key`, in place of what `key` had before.
    pub fn insert(&mut self, key: Vec<char>, value: Vec<char>)
        requires
            old(self).well_formed(),
        ensures
            final(self).well_formed(),
            final(self)@ == old(self)@.insert(key@, value@),
    {
        let ghost before = *self;
        let mut i: usize = 0;
        while i < self.entries.len()
            invariant
                *self == before,
                before == *old(self),
                self.well_formed(),
                i <= self.entries@.len(),
                forall|j: int| 0 <= j < i ==> (#[trigger] self.entries@[j]).key@ != key@,
            decreases self.entries@.len() - i,
        {
            if same(self.entries[i].key.as_slice(), key.as_slice()) {
                let entry = EnvEntry { key, value };
                self.entries.set(i, entry);
                assert forall|a: int| 0 <= a < self.entries@.len() implies (
                #[trigger] self.entries@[a]).key@ == before.entries@[a].key@ by {}
                assert(self.well_formed());
                proof {
                    self.lemma_changed(&before, i as int, entry.key@, entry.value@);
                }
                return ;
            }
            i += 1;
        }
        let entry = EnvEntry { key, value };
        self.entries.push(entry);
        assert forall|a: int, b: int| 0 <= a < b < self.entries@.len() implies self.entries@[a].key@
            != self.entries@[b].key@ by {
            assert(before.entries@[a].key@ != key@);
            if b < before.entries@.len() {
                assert(before.entries@[a].key@ != before.entries@[b].key@);
            }
        }
        proof {
            self.lemma_changed(&before, i as int, entry.key@, entry.value@);
        }
    }

    proof fn lemma_changed(&self, before: &Self, at: int, key: Seq<char>, value: Seq<char>)
        requires
            self.well_formed(),
            before.well_formed(),
            0 <= at < self.entries@.len(),
            self.entries@[at].key@ == key,
            self.entries@[at].value@ == value,
            at <= before.entries@.len(),
            at < before.entries@.len() ==> before.entries@[at].key@ == key
                && self.entries@.len() == before.entries@.len(),
            at == before.entries@.len() ==> self.entries@.len() == at + 1,
            forall|a: int|
                0 <= a < before.entries@.len() && a != at ==> (#[trigger] self.entries@[a])
                    == before.entries@[a],
        ensures
            self@ == before@.insert(key, value),
    {
        let after = before@.insert(key, value);
        self.lemma_at(at);
        assert forall|k: Seq<char>| self@.contains_key(k) == after.contains_key(k) by {
            if self@.contains_key(k) && k != key {
                let i = choose|i: int| 0 <= i < self.entries@.len() && self.entries@[i].key@ == k;
                assert(before.entries@[i].key@ == k);
            }
            if before@.contains_key(k) && k != key {
                let i = choose|i: int|
                    0 <= i < before.entries@.len() && before.entries@[i].key@ == k;
                assert(self.entries@[i].key@ == k);
            }
        }
        assert forall|k: Seq<char>| self@.contains_key(k) implies self@[k] == after[k] by {
            if k != key {
                let i = choose|i: int| 0 <= i < self.entries@.len() && self.entries@[i].key@ == k;
                assert(i != at);
                self.lemma_at(i);
                before.lemma_at(i);
            }
        }
        assert(self@ =~= after);
    }
}

/// Reads an environment text.
pub fn parse_env(source: &str) -> (r: EnvValues)
    ensures
        r.well_formed(),
        r@ == env_map(source@),
{
    let cs = to_chars(source);
    let ls = split_lines(cs.as_slice());
    let ghost all = text::texts(ls@);
    let mut values = EnvValues::new();
    let mut i: usize = 0;
    while i < ls.len()
        invariant
            all == text::texts(ls@),
            i <= ls@.len(),
            values.well_formed(),
            values@ == assigned(all.take(i as int)),
        decreases ls@.len() - i,
    {
        let line = ls[i].as_slice();
        assert(all.take(i + 1).drop_last() =~= all.take(i as int));
        assert(all.take(i + 1).last() == line@);
        if let Some((key, value)) = parse_line(line) {
            let mut k: Vec<char> = Vec::new();
            extend(&mut k, key);
            assert(k@ =~= key@);
            values.insert(k, parse_env_value(value));
        }
        i += 1;
    }
    assert(all.take(i as int) =~= all);
    values
}

} // verus!
