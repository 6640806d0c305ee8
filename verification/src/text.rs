//! Text as sequences of characters: trimming, lines, splitting, case folding
//! and decimal numbers.

use vstd::prelude::*;
use vstd::slice::slice_subrange;

verus! {

/// `String::push` of the standard library appends the character to the end of the string.
pub assume_specification[ String::push ](s: &mut String, c: char)
    ensures
        final(s)@ == old(s)@.push(c),
;

/// What a text that may be absent holds.
pub open spec fn of_str(s: Option<&str>) -> Option<Seq<char>> {
    match s {
        Some(t) => Some(t@),
        None => None,
    }
}

/// What a string that may be absent holds.
pub open spec fn of_string(s: Option<String>) -> Option<Seq<char>> {
    match s {
        Some(t) => Some(t@),
        None => None,
    }
}

/// A copy of a string that may be absent.
pub fn clone_opt(s: &Option<String>) -> (r: Option<String>)
    ensures
        of_string(r) == of_string(*s),
{
    match s {
        Some(t) => Some(t.clone()),
        None => None,
    }
}

// ---------------------------------------------------------------------------
// Between strings and character vectors
// ---------------------------------------------------------------------------

/// The characters of `s`.
pub fn to_chars(s: &str) -> (r: Vec<char>)
    ensures
        r@ == s@,
{
    let mut r: Vec<char> = Vec::new();
    for c in it: s.chars()
        invariant
            it.seq() == s@,
            r@ == s@.take(it.index() as int),
    {
        r.push(c);
    }
    r
}

/// The string made of the characters `s`.
pub fn to_text(s: &[char]) -> (r: String)
    ensures
        r@ == s@,
{
    let mut r = String::new();
    let mut i: usize = 0;
    while i < s.len()
        invariant
            i <= s@.len(),
            r@ == s@.take(i as int),
        decreases s@.len() - i,
    {
        r.push(s[i]);
        i += 1;
    }
    r
}

/// Appends the characters `s` to `out`.
pub fn extend(out: &mut Vec<char>, s: &[char])
    ensures
        final(out)@ == old(out)@ + s@,
{
    let mut i: usize = 0;
    while i < s.len()
        invariant
            i <= s@.len(),
            out@ == old(out)@ + s@.take(i as int),
        decreases s@.len() - i,
    {
        out.push(s[i]);
        i += 1;
    }
}

/// Whether two character slices hold the same text.
pub fn same(a: &[char], b: &[char]) -> (r: bool)
    ensures
        r == (a@ == b@),
{
    if a.len() != b.len() {
        return false;
    }
    let mut i: usize = 0;
    while i < a.len()
        invariant
            a@.len() == b@.len(),
            i <= a@.len(),
            a@.take(i as int) == b@.take(i as int),
        decreases a@.len() - i,
    {
        if a[i] != b[i] {
            return false;
        }
        assert(a@.take(i + 1) =~= b@.take(i + 1));
        i += 1;
    }
    assert(a@.take(i as int) =~= a@);
    assert(b@.take(i as int) =~= b@);
    true
}

/// Whether a character slice holds the text of a string.
pub fn is_text(s: &[char], t: &str) -> (r: bool)
    ensures
        r == (s@ == t@),
{
    same(s, to_chars(t).as_slice())
}

/// Whether two strings hold the same text.
pub fn same_text(a: &str, b: &str) -> (r: bool)
    ensures
        r == (a@ == b@),
{
    let x = to_chars(a);
    let y = to_chars(b);
    same(x.as_slice(), y.as_slice())
}

// ---------------------------------------------------------------------------
// White space
// ---------------------------------------------------------------------------

/// The characters with the Unicode property `White_Space`.
pub open spec fn is_white(c: char) -> bool {
    ||| '\u{9}' <= c <= '\u{d}'
    ||| c == ' '
    ||| c == '\u{85}'
    ||| c == '\u{a0}'
    ||| c == '\u{1680}'
    ||| '\u{2000}' <= c <= '\u{200a}'
    ||| c == '\u{2028}'
    ||| c == '\u{2029}'
    ||| c == '\u{202f}'
    ||| c == '\u{205f}'
    ||| c == '\u{3000}'
}

/// Whether `c` has the Unicode property `White_Space`.
pub fn is_white_char(c: char) -> (r: bool)
    ensures
        r == is_white(c),
{
    ('\u{9}' <= c && c <= '\u{d}') || c == ' ' || c == '\u{85}' || c == '\u{a0}' || c == '\u{1680}'
        || ('\u{2000}' <= c && c <= '\u{200a}') || c == '\u{2028}' || c == '\u{2029}' || c
        == '\u{202f}' || c == '\u{205f}' || c == '\u{3000}'
}

/// `s` without its leading white space.
pub open spec fn trim_start(s: Seq<char>) -> Seq<char>
    decreases s.len(),
{
    if s.len() > 0 && is_white(s[0]) {
        trim_start(s.skip(1))
    } else {
        s
    }
}

/// `s` without its trailing white space.
pub open spec fn trim_end(s: Seq<char>) -> Seq<char>
    decreases s.len(),
{
    if s.len() > 0 && is_white(s.last()) {
        trim_end(s.drop_last())
    } else {
        s
    }
}

/// `s` without white space at either end.
pub open spec fn trimmed(s: Seq<char>) -> Seq<char> {
    trim_end(trim_start(s))
}

/// The part of `s` between its leading and its trailing white space.
pub fn trim(s: &[char]) -> (r: &[char])
    ensures
        r@ == trimmed(s@),
{
    let mut i: usize = 0;
    assert(s@.skip(0) =~= s@);
    while i < s.len() && is_white_char(s[i])
        invariant
            i <= s@.len(),
            trim_start(s@) == trim_start(s@.skip(i as int)),
        decreases s@.len() - i,
    {
        assert(s@.skip(i as int).skip(1) =~= s@.skip(i + 1));
        i += 1;
    }
    let t = slice_subrange(s, i, s.len());
    assert(t@ =~= s@.skip(i as int));
    let mut j: usize = t.len();
    assert(t@.take(j as int) =~= t@);
    while j > 0 && is_white_char(t[j - 1])
        invariant
            j <= t@.len(),
            trim_end(t@) == trim_end(t@.take(j as int)),
        decreases j,
    {
        assert(t@.take(j as int).drop_last() =~= t@.take(j - 1));
        j -= 1;
    }
    let r = slice_subrange(t, 0, j);
    assert(r@ =~= t@.take(j as int));
    r
}

/// Text that starts and ends with something other than white space is its own trimmed form.
pub proof fn lemma_trimmed_id(s: Seq<char>)
    requires
        s.len() > 0 ==> !is_white(s[0]) && !is_white(s.last()),
    ensures
        trimmed(s) == s,
{
}

proof fn lemma_trim_start_shape(s: Seq<char>)
    ensures
        trim_start(s).len() <= s.len(),
        trim_start(s) == s.skip(s.len() - trim_start(s).len()),
        trim_start(s).len() > 0 ==> !is_white(trim_start(s)[0]),
        forall|i: int| 0 <= i < s.len() - trim_start(s).len() ==> is_white(#[trigger] s[i]),
    decreases s.len(),
{
    if s.len() > 0 && is_white(s[0]) {
        lemma_trim_start_shape(s.skip(1));
        let n = trim_start(s).len();
        assert(s.skip(1).skip(s.skip(1).len() - n) =~= s.skip(s.len() - n));
        assert forall|i: int| 0 <= i < s.len() - n implies is_white(#[trigger] s[i]) by {
            if i > 0 {
                assert(s.skip(1)[i - 1] == s[i]);
            }
        }
    } else {
        assert(s.skip(0) =~= s);
    }
}

proof fn lemma_trim_end_shape(s: Seq<char>)
    ensures
        trim_end(s).len() <= s.len(),
        trim_end(s) == s.take(trim_end(s).len() as int),
        trim_end(s).len() > 0 ==> !is_white(trim_end(s).last()),
    decreases s.len(),
{
    if s.len() > 0 && is_white(s.last()) {
        lemma_trim_end_shape(s.drop_last());
        let n = trim_end(s).len();
        assert(s.drop_last().take(n as int) =~= s.take(n as int));
    } else {
        assert(s.take(s.len() as int) =~= s);
    }
}

/// Trimmed text neither starts nor ends with white space, is a part of what was trimmed,
/// and stays as it is when trimmed again.
pub proof fn lemma_trimmed_shape(s: Seq<char>)
    ensures
        trimmed(s).len() > 0 ==> !is_white(trimmed(s)[0]) && !is_white(trimmed(s).last()),
        trimmed(trimmed(s)) == trimmed(s),
        forall|c: char| trimmed(s).contains(c) ==> #[trigger] s.contains(c),
{
    let t = trim_start(s);
    lemma_trim_start_shape(s);
    lemma_trim_end_shape(t);
    let r = trimmed(s);
    assert forall|c: char| r.contains(c) implies #[trigger] s.contains(c) by {
        let i = choose|i: int| 0 <= i < r.len() && r[i] == c;
        assert(s[i + (s.len() - t.len())] == c);
    }
    lemma_trimmed_id(r);
}

proof fn lemma_trim_end_keeps(s: Seq<char>)
    requires
        s.len() > 0,
        !is_white(s[0]),
    ensures
        trim_end(s).len() > 0,
    decreases s.len(),
{
    if is_white(s.last()) {
        lemma_trim_end_keeps(s.drop_last());
    }
}

/// Text that holds something other than white space is not trimmed to nothing.
pub proof fn lemma_trimmed_nonempty(s: Seq<char>, i: int)
    requires
        0 <= i < s.len(),
        !is_white(s[i]),
    ensures
        trimmed(s).len() > 0,
{
    lemma_trim_start_shape(s);
    lemma_trim_end_keeps(trim_start(s));
}

proof fn lemma_trim_start_push(s: Seq<char>, c: char)
    requires
        is_white(c),
    ensures
        trim_start(s.push(c)) == if trim_start(s).len() == 0 {
            Seq::<char>::empty()
        } else {
            trim_start(s).push(c)
        },
    decreases s.len(),
{
    let p = s.push(c);
    if s.len() > 0 && is_white(s[0]) {
        assert(p.skip(1) =~= s.skip(1).push(c));
        lemma_trim_start_push(s.skip(1), c);
    } else if s.len() == 0 {
        assert(p.skip(1) =~= Seq::<char>::empty());
        assert(p[0] == c);
        assert(trim_start(p.skip(1)) =~= Seq::<char>::empty());
    }
}

/// White space at the end makes no difference to the trimmed form.
pub proof fn lemma_trimmed_push(s: Seq<char>, c: char)
    requires
        is_white(c),
    ensures
        trimmed(s.push(c)) == trimmed(s),
{
    lemma_trim_start_push(s, c);
    let t = trim_start(s);
    if t.len() > 0 {
        assert(t.push(c).drop_last() =~= t);
    } else {
        assert(t =~= Seq::<char>::empty());
    }
}

// ---------------------------------------------------------------------------
// Searching and splitting
// ---------------------------------------------------------------------------

/// The index of the first `c` in `s`, or the length of `s` where there is none.
pub open spec fn find(s: Seq<char>, c: char) -> int
    decreases s.len(),
{
    if s.len() == 0 || s[0] == c {
        0
    } else {
        1 + find(s.skip(1), c)
    }
}

/// `find` marks the first occurrence.
pub proof fn lemma_find(s: Seq<char>, c: char)
    ensures
        0 <= find(s, c) <= s.len(),
        find(s, c) < s.len() ==> s[find(s, c)] == c,
        forall|i: int| 0 <= i < find(s, c) ==> #[trigger] s[i] != c,
        find(s, c) == s.len() <==> !s.contains(c),
    decreases s.len(),
{
    if s.len() > 0 && s[0] != c {
        let t = s.skip(1);
        lemma_find(t, c);
        assert forall|i: int| 0 <= i < find(s, c) implies #[trigger] s[i] != c by {
            if i > 0 {
                assert(t[i - 1] == s[i]);
            }
        }
        if find(s, c) < s.len() {
            assert(s[find(s, c)] == c);
        } else {
            assert forall|i: int| 0 <= i < s.len() implies #[trigger] s[i] != c by {}
        }
    }
}

/// The first occurrence is found by what it is.
pub proof fn lemma_find_at(s: Seq<char>, c: char, k: int)
    requires
        0 <= k <= s.len(),
        k < s.len() ==> s[k] == c,
        forall|i: int| 0 <= i < k ==> #[trigger] s[i] != c,
    ensures
        find(s, c) == k,
{
    lemma_find(s, c);
    if find(s, c) < k {
        assert(s[find(s, c)] != c);
    } else if k < find(s, c) {
        assert(s[k] == c);
    }
}

/// The index of the first `c` in `s`, or the length of `s`.
pub fn find_char(s: &[char], c: char) -> (r: usize)
    ensures
        r == find(s@, c),
        r <= s@.len(),
{
    let mut i: usize = 0;
    while i < s.len() && s[i] != c
        invariant
            i <= s@.len(),
            forall|k: int| 0 <= k < i ==> #[trigger] s@[k] != c,
        decreases s@.len() - i,
    {
        i += 1;
    }
    proof {
        lemma_find_at(s@, c, i as int);
    }
    i
}

/// `s` split around its first `c`, which goes to neither part.
pub open spec fn split_once(s: Seq<char>, c: char) -> Option<(Seq<char>, Seq<char>)> {
    let k = find(s, c);
    if k < s.len() {
        Some((s.take(k), s.skip(k + 1)))
    } else {
        None
    }
}

/// Whether `s` starts with `prefix`.
pub open spec fn has_prefix(s: Seq<char>, prefix: Seq<char>) -> bool {
    prefix.len() <= s.len() && s.take(prefix.len() as int) == prefix
}

/// Whether `s` starts with `prefix`.
pub fn starts_with(s: &[char], prefix: &[char]) -> (r: bool)
    ensures
        r == has_prefix(s@, prefix@),
{
    if prefix.len() > s.len() {
        return false;
    }
    let head = slice_subrange(s, 0, prefix.len());
    assert(head@ =~= s@.take(prefix@.len() as int));
    same(head, prefix)
}

/// `s` with one carriage return taken off its end, if it has one there.
pub open spec fn strip_cr(s: Seq<char>) -> Seq<char> {
    if s.len() > 0 && s.last() == '\r' {
        s.drop_last()
    } else {
        s
    }
}

/// The lines of `s`. A line ends at `\n` or `\r\n`; the end of the last line is optional.
pub open spec fn lines(s: Seq<char>) -> Seq<Seq<char>>
    decreases s.len(),
    via lines_decreases
{
    if s.len() == 0 {
        Seq::empty()
    } else {
        let k = find(s, '\n');
        if k < s.len() {
            seq![strip_cr(s.take(k))] + lines(s.skip(k + 1))
        } else {
            seq![s]
        }
    }
}

#[via_fn]
proof fn lines_decreases(s: Seq<char>) {
    lemma_find(s, '\n');
}

/// The texts that a vector of character vectors holds.
pub open spec fn texts(v: Seq<Vec<char>>) -> Seq<Seq<char>> {
    Seq::new(v.len(), |i: int| v[i]@)
}

/// The lines of `s`.
pub fn split_lines(s: &[char]) -> (r: Vec<Vec<char>>)
    ensures
        texts(r@) == lines(s@),
{
    let mut r: Vec<Vec<char>> = Vec::new();
    let mut i: usize = 0;
    assert(s@.skip(0) =~= s@);
    assert(texts(r@) + lines(s@) =~= lines(s@));
    while i < s.len()
        invariant
            i <= s@.len(),
            texts(r@) + lines(s@.skip(i as int)) == lines(s@),
        decreases s@.len() - i,
    {
        let rest = slice_subrange(s, i, s.len());
        assert(rest@ =~= s@.skip(i as int));
        let k = find_char(rest, '\n');
        let ghost before = texts(r@);
        if k < rest.len() {
            let mut end: usize = k;
            if k > 0 && rest[k - 1] == '\r' {
                end = k - 1;
            }
            let line = slice_subrange(rest, 0, end);
            assert(line@ =~= strip_cr(rest@.take(k as int)));
            let mut copy: Vec<char> = Vec::new();
            extend(&mut copy, line);
            assert(copy@ =~= line@);
            r.push(copy);
            assert(texts(r@) =~= before.push(line@));
            assert(rest@.skip(k + 1) =~= s@.skip(i + k + 1));
            assert(before + (seq![line@] + lines(rest@.skip(k + 1))) =~= texts(r@) + lines(
                rest@.skip(k + 1),
            ));
            i = i + k + 1;
        } else {
            let mut copy: Vec<char> = Vec::new();
            extend(&mut copy, rest);
            assert(copy@ =~= rest@);
            r.push(copy);
            assert(texts(r@) =~= before + seq![rest@]);
            i = s.len();
            assert(s@.skip(i as int) =~= Seq::<char>::empty());
            assert(texts(r@) + lines(s@.skip(i as int)) =~= texts(r@));
        }
    }
    assert(s@.skip(i as int) =~= Seq::<char>::empty());
    assert(texts(r@) + lines(s@.skip(i as int)) =~= texts(r@));
    r
}

/// No line holds a line feed.
pub proof fn lemma_lines_hold_no_newline(s: Seq<char>)
    ensures
        forall|i: int| 0 <= i < lines(s).len() ==> !(#[trigger] lines(s)[i]).contains('\n'),
    decreases s.len(),
{
    lemma_find(s, '\n');
    if s.len() > 0 {
        let k = find(s, '\n');
        if k < s.len() {
            let rest = s.skip(k + 1);
            lemma_lines_hold_no_newline(rest);
            let first = strip_cr(s.take(k));
            assert(!first.contains('\n')) by {
                if first.contains('\n') {
                    let i = choose|i: int| 0 <= i < first.len() && first[i] == '\n';
                    assert(s[i] == '\n');
                }
            }
            assert forall|i: int| 0 <= i < lines(s).len() implies !(#[trigger] lines(
                s,
            )[i]).contains('\n') by {
                if i > 0 {
                    assert(lines(s)[i] == lines(rest)[i - 1]);
                }
            }
        }
    }
}

/// The texts `parts` one after another with `sep` after each of them.
pub open spec fn terminated(parts: Seq<Seq<char>>, sep: char) -> Seq<char>
    decreases parts.len(),
{
    if parts.len() == 0 {
        Seq::empty()
    } else {
        terminated(parts.drop_last(), sep) + parts.last().push(sep)
    }
}

proof fn lemma_terminated_front(parts: Seq<Seq<char>>, sep: char)
    requires
        parts.len() > 0,
    ensures
        terminated(parts, sep) == parts[0].push(sep) + terminated(parts.skip(1), sep),
    decreases parts.len(),
{
    if parts.len() == 1 {
        assert(parts.drop_last() =~= Seq::empty());
        assert(parts.skip(1) =~= Seq::empty());
        assert(terminated(parts, sep) =~= parts[0].push(sep) + terminated(parts.skip(1), sep));
    } else {
        lemma_terminated_front(parts.drop_last(), sep);
        assert(parts.skip(1).drop_last() =~= parts.drop_last().skip(1));
        assert(terminated(parts, sep) =~= parts[0].push(sep) + terminated(parts.skip(1), sep));
    }
}

/// The texts one after another hold what each of them holds.
pub proof fn lemma_terminated_holds(parts: Seq<Seq<char>>, sep: char, i: int, c: char)
    requires
        0 <= i < parts.len(),
        parts[i].contains(c),
    ensures
        terminated(parts, sep).contains(c),
    decreases parts.len(),
{
    let all = terminated(parts, sep);
    let front = terminated(parts.drop_last(), sep);
    if i < parts.len() - 1 {
        lemma_terminated_holds(parts.drop_last(), sep, i, c);
        let k = choose|k: int| 0 <= k < front.len() && front[k] == c;
        assert(all[k] == c);
    } else {
        let k = choose|k: int| 0 <= k < parts[i].len() && parts[i][k] == c;
        assert(all[front.len() + k] == c);
    }
}

/// Lines that hold no line feed, each ended by one, are read back as they were, but for a
/// carriage return at the end of a line.
pub proof fn lemma_lines_of_terminated(parts: Seq<Seq<char>>)
    requires
        forall|i: int| 0 <= i < parts.len() ==> !(#[trigger] parts[i]).contains('\n'),
    ensures
        lines(terminated(parts, '\n')) == parts.map_values(|l: Seq<char>| strip_cr(l)),
    decreases parts.len(),
{
    let text = terminated(parts, '\n');
    let stripped = parts.map_values(|l: Seq<char>| strip_cr(l));
    if parts.len() == 0 {
        assert(lines(text) =~= stripped);
    } else {
        lemma_terminated_front(parts, '\n');
        let tail = parts.skip(1);
        assert forall|i: int| 0 <= i < tail.len() implies !(#[trigger] tail[i]).contains(
            '\n',
        ) by {
            assert(tail[i] == parts[i + 1]);
        }
        lemma_lines_of_terminated(tail);
        let k = parts[0].len() as int;
        assert(text[k] == '\n');
        assert forall|i: int| 0 <= i < k implies #[trigger] text[i] != '\n' by {
            assert(text[i] == parts[0][i]);
            assert(parts[0].contains(parts[0][i]));
        }
        lemma_find_at(text, '\n', k);
        assert(text.take(k) =~= parts[0]);
        assert(text.skip(k + 1) =~= terminated(tail, '\n'));
        assert(lines(text) =~= stripped);
    }
}

// ---------------------------------------------------------------------------
// Case and replacement
// ---------------------------------------------------------------------------

/// The ASCII lower case form of `c`; every other character stays as it is.
pub open spec fn lower(c: char) -> char {
    if 'A' <= c <= 'Z' {
        (c as u32 + 32) as char
    } else {
        c
    }
}

/// `s` with its ASCII letters in lower case.
pub open spec fn lowered(s: Seq<char>) -> Seq<char> {
    s.map_values(|c: char| lower(c))
}

/// The ASCII lower case form of `c`.
pub fn lower_char(c: char) -> (r: char)
    ensures
        r == lower(c),
{
    if 'A' <= c && c <= 'Z' {
        ((c as u8) + 32) as char
    } else {
        c
    }
}

/// `s` with its ASCII letters in lower case.
pub fn to_lower(s: &[char]) -> (r: Vec<char>)
    ensures
        r@ == lowered(s@),
{
    let mut r: Vec<char> = Vec::new();
    let mut i: usize = 0;
    while i < s.len()
        invariant
            i <= s@.len(),
            r@ == lowered(s@.take(i as int)),
        decreases s@.len() - i,
    {
        r.push(lower_char(s[i]));
        assert(lowered(s@.take(i + 1)) =~= lowered(s@.take(i as int)).push(lower(s@[i as int])));
        i += 1;
    }
    assert(s@.take(i as int) =~= s@);
    r
}

/// `s` with every `from` replaced by `to`.
pub open spec fn replaced(s: Seq<char>, from: char, to: char) -> Seq<char> {
    s.map_values(|c: char| if c == from { to } else { c })
}

/// `s` with every `from` replaced by `to`.
pub fn replace(s: &str, from: char, to: char) -> (r: String)
    ensures
        r@ == replaced(s@, from, to),
{
    let cs = to_chars(s);
    let mut r = String::new();
    let mut i: usize = 0;
    while i < cs.len()
        invariant
            cs@ == s@,
            i <= cs@.len(),
            r@ == replaced(s@.take(i as int), from, to),
        decreases cs@.len() - i,
    {
        let c = cs[i];
        r.push(if c == from { to } else { c });
        assert(replaced(s@.take(i + 1), from, to) =~= replaced(s@.take(i as int), from, to).push(
            if c == from { to } else { c },
        ));
        i += 1;
    }
    assert(s@.take(i as int) =~= s@);
    r
}

// ---------------------------------------------------------------------------
// Decimal numbers
// ---------------------------------------------------------------------------

/// Whether `c` is an ASCII digit.
pub open spec fn is_digit(c: char) -> bool {
    '0' <= c <= '9'
}

/// The digit for `d`, which is below ten.
pub open spec fn digit(d: nat) -> char {
    (48 + d) as char
}

/// `n` in decimal digits, without a leading zero.
pub open spec fn decimal(n: nat) -> Seq<char>
    decreases n,
{
    if n < 10 {
        seq![digit(n)]
    } else {
        decimal(n / 10).push(digit(n % 10))
    }
}

/// `n` in decimal digits, after a minus sign if it is negative.
pub open spec fn signed_decimal(n: int) -> Seq<char> {
    if n < 0 {
        seq!['-'] + decimal((-n) as nat)
    } else {
        decimal(n as nat)
    }
}

/// The number that a sequence of digits stands for.
pub open spec fn digits_value(s: Seq<char>) -> nat
    decreases s.len(),
{
    if s.len() == 0 {
        0
    } else {
        10 * digits_value(s.drop_last()) + (s.last() as nat - 48) as nat
    }
}

/// Whether `s` is one digit or more, and nothing else.
pub open spec fn all_digits(s: Seq<char>) -> bool {
    s.len() > 0 && forall|i: int| 0 <= i < s.len() ==> is_digit(#[trigger] s[i])
}

/// The number that `s` stands for: digits, after an optional plus sign, for a number of at
/// most `max`.
pub open spec fn parsed_number(s: Seq<char>, max: nat) -> Option<nat> {
    let body = if s.len() > 0 && s[0] == '+' {
        s.skip(1)
    } else {
        s
    };
    if all_digits(body) && digits_value(body) <= max {
        Some(digits_value(body))
    } else {
        None
    }
}

/// Decimal digits stand for the number they were made from.
pub proof fn lemma_decimal(n: nat)
    ensures
        all_digits(decimal(n)),
        digits_value(decimal(n)) == n,
    decreases n,
{
    if n < 10 {
        let s = decimal(n);
        assert(s.drop_last() =~= Seq::<char>::empty());
        assert(digits_value(s.drop_last()) == 0);
        assert(digits_value(s) == n);
    } else {
        lemma_decimal(n / 10);
        let s = decimal(n);
        assert(s.drop_last() =~= decimal(n / 10));
        assert forall|i: int| 0 <= i < s.len() implies is_digit(#[trigger] s[i]) by {
            if i < s.len() - 1 {
                assert(s[i] == decimal(n / 10)[i]);
            }
        }
    }
}

/// A number is read back from its decimal digits.
pub proof fn lemma_parse_decimal(n: nat, max: nat)
    requires
        n <= max,
    ensures
        parsed_number(decimal(n), max) == Some(n),
{
    lemma_decimal(n);
    assert(is_digit(decimal(n)[0]));
}

proof fn lemma_digits_value_grows(s: Seq<char>, k: int)
    requires
        0 <= k <= s.len(),
    ensures
        digits_value(s.take(k)) <= digits_value(s),
    decreases s.len(),
{
    if k < s.len() {
        lemma_digits_value_grows(s.drop_last(), k);
        assert(s.drop_last().take(k) =~= s.take(k));
    } else {
        assert(s.take(k) =~= s);
    }
}

/// Reads digits, after an optional plus sign, for a number of at most `max`.
pub fn parse_number(s: &[char], max: usize) -> (r: Option<usize>)
    ensures
        match r {
            Some(n) => parsed_number(s@, max as nat) == Some(n as nat),
            None => parsed_number(s@, max as nat) is None,
        },
{
    let start: usize = if s.len() > 0 && s[0] == '+' { 1 } else { 0 };
    let body = slice_subrange(s, start, s.len());
    assert(start == 1 ==> body@ =~= s@.skip(1));
    assert(start == 0 ==> body@ =~= s@);
    if body.len() == 0 {
        return None;
    }
    let mut n: usize = 0;
    let mut i: usize = 0;
    while i < body.len()
        invariant
            i <= body@.len(),
            n == digits_value(body@.take(i as int)),
            n <= max,
            forall|k: int| 0 <= k < i ==> is_digit(#[trigger] body@[k]),
            start == 1 <==> s@.len() > 0 && s@[0] == '+',
            start == 1 ==> body@ == s@.skip(1),
            start != 1 ==> body@ == s@,
        decreases body@.len() - i,
    {
        let c = body[i];
        if !('0' <= c && c <= '9') {
            assert(!is_digit(body@[i as int]));
            return None;
        }
        let d: usize = (c as u8 - 48) as usize;
        assert(body@.take(i + 1).drop_last() =~= body@.take(i as int));
        assert(digits_value(body@.take(i + 1)) == 10 * n + d);
        proof {
            lemma_digits_value_grows(body@, i + 1);
        }
        if n > max / 10 || d > max - 10 * n {
            assert(10 * n + d > max) by {
                if n > max / 10 {
                    assert(10 * n >= 10 * (max / 10) + 10);
                }
            }
            return None;
        }
        n = 10 * n + d;
        i += 1;
    }
    assert(body@.take(i as int) =~= body@);
    Some(n)
}

/// `n` in decimal digits.
pub fn decimal_chars(n: u64) -> (r: Vec<char>)
    ensures
        r@ == decimal(n as nat),
    decreases n,
{
    if n < 10 {
        let mut r: Vec<char> = Vec::new();
        r.push((48 + n as u8) as char);
        assert(r@ =~= decimal(n as nat));
        r
    } else {
        let mut r = decimal_chars(n / 10);
        r.push((48 + (n % 10) as u8) as char);
        r
    }
}

/// `n` in decimal digits.
pub fn decimal_text(n: usize) -> (r: String)
    ensures
        r@ == decimal(n as nat),
{
    let cs = decimal_chars(n as u64);
    to_text(cs.as_slice())
}

/// `n` in decimal digits, after a minus sign if it is negative.
pub fn signed_decimal_text(n: i64) -> (r: String)
    ensures
        r@ == signed_decimal(n as int),
{
    if n < 0 {
        let magnitude: u64 = if n == i64::MIN { 0x8000_0000_0000_0000u64 } else { (-n) as u64 };
        let cs = decimal_chars(magnitude);
        let mut all: Vec<char> = Vec::new();
        all.push('-');
        extend(&mut all, cs.as_slice());
        assert(all@ =~= signed_decimal(n as int));
        to_text(all.as_slice())
    } else {
        let cs = decimal_chars(n as u64);
        to_text(cs.as_slice())
    }
}

// ---------------------------------------------------------------------------
// Laws of text
// ---------------------------------------------------------------------------

/// White space is what Unicode holds for it: the tab and the ends of lines, the space, the next
/// line, and the spaces of other scripts.
pub proof fn law_white_space(c: char)
    ensures
        is_white(c) <==> {
            let n = c as u32;
            ||| 9 <= n <= 13
            ||| n == 32
            ||| n == 0x85
            ||| n == 0xa0
            ||| n == 0x1680
            ||| 0x2000 <= n <= 0x200a
            ||| n == 0x2028
            ||| n == 0x2029
            ||| n == 0x202f
            ||| n == 0x205f
            ||| n == 0x3000
        },
{
}

/// Whether a text is nothing but white space.
pub open spec fn all_white(s: Seq<char>) -> bool {
    forall|i: int| 0 <= i < s.len() ==> is_white(#[trigger] s[i])
}

proof fn lemma_trim_start_skips(pre: Seq<char>, rest: Seq<char>)
    requires
        all_white(pre),
    ensures
        trim_start(pre + rest) == trim_start(rest),
    decreases pre.len(),
{
    let all = pre + rest;
    if pre.len() == 0 {
        assert(all =~= rest);
    } else {
        assert(all[0] == pre[0]);
        assert(all.skip(1) =~= pre.skip(1) + rest);
        assert forall|i: int| 0 <= i < pre.skip(1).len() implies is_white(
            #[trigger] pre.skip(1)[i],
        ) by {
            assert(pre.skip(1)[i] == pre[i + 1]);
        }
        lemma_trim_start_skips(pre.skip(1), rest);
    }
}

proof fn lemma_trim_end_skips(rest: Seq<char>, post: Seq<char>)
    requires
        all_white(post),
    ensures
        trim_end(rest + post) == trim_end(rest),
    decreases post.len(),
{
    let all = rest + post;
    if post.len() == 0 {
        assert(all =~= rest);
    } else {
        assert(all.last() == post[post.len() - 1]);
        assert(all.drop_last() =~= rest + post.drop_last());
        assert forall|i: int| 0 <= i < post.drop_last().len() implies is_white(
            #[trigger] post.drop_last()[i],
        ) by {
            assert(post.drop_last()[i] == post[i]);
        }
        lemma_trim_end_skips(rest, post.drop_last());
    }
}

/// White space at the beginning is taken off before anything else is.
pub proof fn lemma_trim_start_of(pre: Seq<char>, rest: Seq<char>)
    requires
        all_white(pre),
        rest.len() > 0,
        !is_white(rest[0]),
    ensures
        trimmed(pre + rest) == trim_end(rest),
{
    lemma_trim_start_skips(pre, rest);
}

/// Taking off white space at the end leaves the beginning.
pub proof fn lemma_trim_end_starts(s: Seq<char>)
    requires
        s.len() > 0,
        !is_white(s[0]),
    ensures
        trim_end(s).len() > 0,
        trim_end(s)[0] == s[0],
{
    lemma_trim_end_keeps(s);
    lemma_trim_end_shape(s);
}

/// Trimming takes off the white space on both sides and nothing else.
pub proof fn law_trimming_takes_off_white_space(pre: Seq<char>, mid: Seq<char>, post: Seq<char>)
    requires
        all_white(pre),
        all_white(post),
        mid.len() > 0 ==> !is_white(mid[0]) && !is_white(mid.last()),
    ensures
        trimmed(pre + mid + post) == mid,
{
    if mid.len() == 0 {
        let w = pre + post;
        assert(pre + mid + post =~= w + mid);
        assert forall|i: int| 0 <= i < w.len() implies is_white(#[trigger] w[i]) by {
            if i < pre.len() {
                assert(w[i] == pre[i]);
            } else {
                assert(w[i] == post[i - pre.len()]);
            }
        }
        lemma_trim_start_skips(w, mid);
        assert(trimmed(pre + mid + post) =~= mid);
    } else {
        assert(pre + mid + post =~= pre + (mid + post));
        lemma_trim_start_skips(pre, mid + post);
        assert((mid + post)[0] == mid[0]);
        lemma_trim_end_skips(mid, post);
    }
}

/// Small letters stand for the capital letters of ASCII, and every other character for itself.
pub proof fn law_lower_case(s: Seq<char>, i: int)
    requires
        0 <= i < s.len(),
    ensures
        lowered(s).len() == s.len(),
        65 <= s[i] as u32 <= 90 ==> lowered(s)[i] as u32 == s[i] as u32 + 32,
        !(65 <= s[i] as u32 <= 90) ==> lowered(s)[i] == s[i],
{
}

/// Replacing a character changes it wherever it stands, and nothing else.
pub proof fn law_replacing(s: Seq<char>, from: char, to: char, i: int)
    requires
        0 <= i < s.len(),
    ensures
        replaced(s, from, to).len() == s.len(),
        replaced(s, from, to)[i] == if s[i] == from {
            to
        } else {
            s[i]
        },
{
}

/// A text is read line by line: a line ends before a line feed, and before the carriage return
/// that stands before it.
pub proof fn law_lines_end_at_line_feeds(line: Seq<char>, rest: Seq<char>)
    requires
        !line.contains('\n'),
    ensures
        lines(line + seq!['\n'] + rest) == seq![
            if line.len() > 0 && line.last() == '\r' {
                line.drop_last()
            } else {
                line
            },
        ] + lines(rest),
        line.len() > 0 ==> lines(line) == seq![line],
        lines(Seq::empty()).len() == 0,
{
    let all = line + seq!['\n'] + rest;
    let k = line.len() as int;
    assert(all[k] == '\n');
    assert forall|i: int| 0 <= i < k implies #[trigger] all[i] != '\n' by {
        assert(all[i] == line[i]);
        assert(line.contains(line[i]));
    }
    lemma_find_at(all, '\n', k);
    assert(all.take(k) =~= line);
    assert(all.skip(k + 1) =~= rest);
    assert forall|i: int| 0 <= i < k implies #[trigger] line[i] != '\n' by {
        assert(line.contains(line[i]));
    }
    lemma_find_at(line, '\n', k);
}

/// Whether a text is empty or ends with a line feed.
pub open spec fn ends_line(t: Seq<char>) -> bool {
    t.len() == 0 || t.last() == '\n'
}

/// The lines of whole lines and what follows them are the lines of both, one after another.
pub proof fn law_lines_add_up(a: Seq<char>, b: Seq<char>)
    requires
        ends_line(a),
    ensures
        lines(a + b) == lines(a) + lines(b),
    decreases a.len(),
{
    if a.len() == 0 {
        assert(a + b =~= b);
        assert(lines(a) + lines(b) =~= lines(b));
    } else {
        lemma_find(a, '\n');
        let k = find(a, '\n');
        assert(k < a.len()) by {
            if k >= a.len() {
                assert(a[a.len() - 1] == '\n');
            }
        }
        let line = a.take(k);
        let rest = a.skip(k + 1);
        assert(!line.contains('\n')) by {
            if line.contains('\n') {
                let i = choose|i: int| 0 <= i < line.len() && line[i] == '\n';
                assert(a[i] == '\n');
            }
        }
        assert(a =~= line + seq!['\n'] + rest);
        assert(a + b =~= line + seq!['\n'] + (rest + b));
        assert(rest.len() > 0 ==> rest.last() == a.last());
        law_lines_end_at_line_feeds(line, rest);
        law_lines_end_at_line_feeds(line, rest + b);
        law_lines_add_up(rest, b);
        assert(lines(a + b) =~= lines(a) + lines(b));
    }
}

/// A number is written digit by digit, the highest first.
pub proof fn law_decimal_digits(n: nat)
    ensures
        n < 10 ==> decimal(n).len() == 1 && decimal(n)[0] as u32 == 48 + n,
        n >= 10 ==> decimal(n).len() == decimal(n / 10).len() + 1 && decimal(n).drop_last()
            == decimal(n / 10) && decimal(n).last() as u32 == 48 + n % 10,
{
    if n >= 10 {
        assert(decimal(n).drop_last() =~= decimal(n / 10));
    }
}

/// Digits are read as the number that they write, from the highest to the lowest; a plus sign
/// may stand before them. Nothing else is a number, nor is one that is too large.
pub proof fn law_numbers_are_read(s: Seq<char>, d: char, max: nat)
    ensures
        parsed_number(Seq::empty(), max) is None,
        digits_value(Seq::empty()) == 0,
        '0' <= d <= '9' ==> digits_value(s.push(d)) == 10 * digits_value(s) + (d as u32 - 48),
        (forall|i: int| 0 <= i < s.len() ==> '0' <= (#[trigger] s[i]) <= '9') && s.len() > 0 ==> {
            &&& parsed_number(s, max) == if digits_value(s) <= max {
                Some(digits_value(s))
            } else {
                None
            }
            &&& parsed_number(seq!['+'] + s, max) == parsed_number(s, max)
        },
        (exists|i: int|
            0 <= i < s.len() && !('0' <= (#[trigger] s[i]) <= '9') && !(i == 0 && s[i] == '+'))
            ==> parsed_number(s, max) is None,
        s == seq!['+'] ==> parsed_number(s, max) is None,
{
    assert(s.push(d).drop_last() =~= s);
    if (forall|i: int| 0 <= i < s.len() ==> '0' <= (#[trigger] s[i]) <= '9') && s.len() > 0 {
        assert(all_digits(s));
        assert('0' <= s[0] <= '9');
        assert((seq!['+'] + s).skip(1) =~= s);
    }
    if exists|i: int|
        0 <= i < s.len() && !('0' <= (#[trigger] s[i]) <= '9') && !(i == 0 && s[i] == '+') {
        let i = choose|i: int|
            0 <= i < s.len() && !('0' <= (#[trigger] s[i]) <= '9') && !(i == 0 && s[i] == '+');
        if s[0] == '+' {
            assert(s.skip(1)[i - 1] == s[i]);
        }
    }
    if s == seq!['+'] {
        assert(s.skip(1) =~= Seq::<char>::empty());
    }
}

/// A negative number is written as the positive one is, after a minus sign.
pub proof fn law_signs_of_numbers(n: nat)
    ensures
        signed_decimal(n as int) == decimal(n),
        n > 0 ==> signed_decimal(-(n as int)) == seq!['-'] + decimal(n),
{
}

/// A text begins with another exactly if it is that text with something after it.
pub proof fn law_beginnings_of_texts(s: Seq<char>, prefix: Seq<char>)
    ensures
        has_prefix(s, prefix) <==> exists|rest: Seq<char>| s == #[trigger] (prefix + rest),
{
    if has_prefix(s, prefix) {
        assert(s =~= prefix + s.skip(prefix.len() as int));
    }
    if exists|rest: Seq<char>| s == #[trigger] (prefix + rest) {
        let rest = choose|rest: Seq<char>| s == #[trigger] (prefix + rest);
        assert(s.take(prefix.len() as int) =~= prefix);
    }
}

/// A text that is ended line by line is its lines, each with its end after it.
pub proof fn law_texts_of_lines(parts: Seq<Seq<char>>, last: Seq<char>, end: char)
    ensures
        terminated(Seq::empty(), end).len() == 0,
        terminated(parts.push(last), end) == terminated(parts, end) + last + seq![end],
{
    assert(parts.push(last).drop_last() =~= parts);
    assert(terminated(parts.push(last), end) =~= terminated(parts, end) + last + seq![end]);
}

} // verus!
