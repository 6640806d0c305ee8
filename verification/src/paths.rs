//! Paths as text: their components, lexical normalization, joining, ancestors,
//! extensions and order. Separators are `/`.

use vstd::prelude::*;
use vstd::slice::slice_subrange;

use crate::text;
use crate::text::{extend, find_char, replace, same, to_chars, to_text};

verus! {

/// What a path names on disk.
#[derive(Clone, Copy, Debug, PartialEq, Eq, Structural)]
pub enum EntryKind {
    Missing,
    Directory,
    File,
    Other,
}

// ---------------------------------------------------------------------------
// Components
// ---------------------------------------------------------------------------

/// One component of a path.
pub enum Component {
    RootDir,
    CurDir,
    ParentDir,
    Normal(Seq<char>),
}

/// The component that the text between two separators stands for. Nothing and a single dot
/// stand for none.
pub open spec fn part(seg: Seq<char>) -> Seq<Component> {
    if seg.len() == 0 || seg == seq!['.'] {
        Seq::empty()
    } else if seg == seq!['.', '.'] {
        seq![Component::ParentDir]
    } else {
        seq![Component::Normal(seg)]
    }
}

/// What follows the first segment of `s` and its separator.
pub open spec fn after_segment(s: Seq<char>) -> Seq<char> {
    let k = text::find(s, '/');
    if k < s.len() {
        s.skip(k + 1)
    } else {
        Seq::empty()
    }
}

/// The components of `s`, of which no root and no leading dot is left.
pub open spec fn body(s: Seq<char>) -> Seq<Component>
    decreases s.len(),
    via body_decreases
{
    if s.len() == 0 {
        Seq::empty()
    } else {
        part(s.take(text::find(s, '/'))) + body(after_segment(s))
    }
}

#[via_fn]
proof fn body_decreases(s: Seq<char>) {
    text::lemma_find(s, '/');
}

/// Whether `s` starts at the root.
pub open spec fn is_absolute(s: Seq<char>) -> bool {
    s.len() > 0 && s[0] == '/'
}

/// Whether the first component of `s` is a dot.
pub open spec fn starts_with_dot(s: Seq<char>) -> bool {
    s.len() > 0 && s[0] == '.' && (s.len() == 1 || s[1] == '/')
}

/// The components of the path `s`. Repeated separators, a separator at the end, and dots but
/// for one at the beginning count for nothing.
pub open spec fn components(s: Seq<char>) -> Seq<Component> {
    if is_absolute(s) {
        seq![Component::RootDir] + body(s.skip(1))
    } else if starts_with_dot(s) {
        seq![Component::CurDir] + body(s.skip(1))
    } else {
        body(s)
    }
}

/// A component of a path, in memory.
pub enum PathPart {
    RootDir,
    CurDir,
    ParentDir,
    Normal(Vec<char>),
}

impl View for PathPart {
    type V = Component;

    open spec fn view(&self) -> Component {
        match self {
            PathPart::RootDir => Component::RootDir,
            PathPart::CurDir => Component::CurDir,
            PathPart::ParentDir => Component::ParentDir,
            PathPart::Normal(name) => Component::Normal(name@),
        }
    }
}

/// The components that a vector of parts stands for.
pub open spec fn parts_view(v: Seq<PathPart>) -> Seq<Component> {
    Seq::new(v.len(), |i: int| v[i]@)
}

/// Appends the component that `seg` stands for, if it stands for one.
fn push_part(out: &mut Vec<PathPart>, seg: &[char])
    ensures
        parts_view(final(out)@) == parts_view(old(out)@) + part(seg@),
{
    let ghost before = parts_view(out@);
    if seg.len() == 0 || (seg.len() == 1 && seg[0] == '.') {
        assert(seg@.len() == 1 ==> seg@ =~= seq!['.']);
        assert(parts_view(out@) =~= before + part(seg@));
        return ;
    }
    assert(seg@ != seq!['.']) by {
        if seg@ == seq!['.'] {
            assert(seg@.len() == 1 && seg@[0] == '.');
        }
    }
    if seg.len() == 2 && seg[0] == '.' && seg[1] == '.' {
        assert(seg@ =~= seq!['.', '.']);
        out.push(PathPart::ParentDir);
    } else {
        assert(seg@ != seq!['.', '.']) by {
            if seg@ == seq!['.', '.'] {
                assert(seg@.len() == 2 && seg@[0] == '.' && seg@[1] == '.');
            }
        }
        let mut name: Vec<char> = Vec::new();
        extend(&mut name, seg);
        assert(name@ =~= seg@);
        out.push(PathPart::Normal(name));
    }
    assert(parts_view(out@) =~= before + part(seg@));
}

/// The components of the path `s`.
pub fn path_parts(s: &[char]) -> (r: Vec<PathPart>)
    ensures
        parts_view(r@) == components(s@),
{
    let mut r: Vec<PathPart> = Vec::new();
    let mut i: usize = 0;
    if s.len() > 0 && s[0] == '/' {
        r.push(PathPart::RootDir);
        assert(parts_view(r@) =~= seq![Component::RootDir]);
        i = 1;
    } else if s.len() > 0 && s[0] == '.' && (s.len() == 1 || s[1] == '/') {
        r.push(PathPart::CurDir);
        assert(parts_view(r@) =~= seq![Component::CurDir]);
        i = 1;
    } else {
        assert(s@.skip(0) =~= s@);
        assert(parts_view(r@) =~= Seq::empty());
        assert(parts_view(r@) + body(s@.skip(0)) =~= components(s@));
    }
    while i < s.len()
        invariant
            i <= s@.len(),
            parts_view(r@) + body(s@.skip(i as int)) == components(s@),
        decreases s@.len() - i,
    {
        let rest = slice_subrange(s, i, s.len());
        assert(rest@ =~= s@.skip(i as int));
        let k = find_char(rest, '/');
        let seg = slice_subrange(rest, 0, k);
        assert(seg@ =~= rest@.take(k as int));
        let ghost before = parts_view(r@);
        push_part(&mut r, seg);
        if k < rest.len() {
            assert(after_segment(rest@) =~= s@.skip(i + k + 1));
            i = i + k + 1;
        } else {
            assert(s@.skip(s@.len() as int) =~= Seq::<char>::empty());
            i = s.len();
        }
        assert(before + (part(seg@) + body(after_segment(rest@))) =~= parts_view(r@) + body(
            after_segment(rest@),
        ));
    }
    assert(s@.skip(i as int) =~= Seq::<char>::empty());
    assert(parts_view(r@) + body(s@.skip(i as int)) =~= parts_view(r@));
    r
}

/// A separator splits the components of a text in two.
pub proof fn lemma_body_split(a: Seq<char>, b: Seq<char>)
    ensures
        body(a + seq!['/'] + b) == body(a) + body(b),
    decreases a.len(),
{
    let s = a + seq!['/'] + b;
    text::lemma_find(a, '/');
    let k = text::find(a, '/');
    if a.len() == 0 {
        text::lemma_find_at(s, '/', 0);
        assert(s.take(0) =~= Seq::<char>::empty());
        assert(after_segment(s) =~= b);
        assert(body(s) =~= body(a) + body(b));
    } else if k < a.len() {
        let a2 = a.skip(k + 1);
        lemma_body_split(a2, b);
        assert(s[k] == '/');
        assert forall|i: int| 0 <= i < k implies #[trigger] s[i] != '/' by {
            assert(s[i] == a[i]);
        }
        text::lemma_find_at(s, '/', k);
        assert(s.take(k) =~= a.take(k));
        assert(after_segment(s) =~= a2 + seq!['/'] + b);
        assert(body(s) =~= part(a.take(k)) + (body(a2) + body(b)));
        assert(body(s) =~= body(a) + body(b));
    } else {
        assert forall|i: int| 0 <= i < k implies #[trigger] s[i] != '/' by {
            assert(s[i] == a[i]);
        }
        text::lemma_find_at(s, '/', k);
        assert(s.take(k) =~= a);
        assert(a.take(k) =~= a);
        assert(after_segment(s) =~= b);
        assert(after_segment(a) =~= Seq::<char>::empty());
        assert(body(after_segment(a)) =~= Seq::empty());
        assert(body(a) =~= part(a));
        assert(body(s) =~= body(a) + body(b));
    }
}

// ---------------------------------------------------------------------------
// Joining
// ---------------------------------------------------------------------------

/// `tail` below `base`. An absolute `tail` stands alone.
pub open spec fn joined(base: Seq<char>, tail: Seq<char>) -> Seq<char> {
    if is_absolute(tail) || base.len() == 0 {
        tail
    } else if base.last() == '/' {
        base + tail
    } else {
        base + seq!['/'] + tail
    }
}

/// `tail` below `base`. An absolute `tail` stands alone.
pub fn join(base: &[char], tail: &[char]) -> (r: Vec<char>)
    ensures
        r@ == joined(base@, tail@),
{
    let mut r: Vec<char> = Vec::new();
    if (tail.len() > 0 && tail[0] == '/') || base.len() == 0 {
        extend(&mut r, tail);
        assert(r@ =~= tail@);
        return r;
    }
    extend(&mut r, base);
    assert(r@ =~= base@);
    if base[base.len() - 1] != '/' {
        r.push('/');
    }
    extend(&mut r, tail);
    assert(r@ =~= joined(base@, tail@));
    r
}

/// `tail` below `base`. An absolute `tail` stands alone.
pub fn join_path(base: &str, tail: &str) -> (r: String)
    ensures
        r@ == joined(base@, tail@),
{
    let b = to_chars(base);
    let t = to_chars(tail);
    let j = join(b.as_slice(), t.as_slice());
    to_text(j.as_slice())
}

/// The components of a relative path below a base are those of the base and then its own.
pub proof fn lemma_components_joined(base: Seq<char>, tail: Seq<char>)
    requires
        base.len() > 0,
        !is_absolute(tail),
    ensures
        components(joined(base, tail)) == components(base) + body(tail),
{
    let j = joined(base, tail);
    let lead: int = if is_absolute(base) || starts_with_dot(base) { 1 } else { 0 };
    let b = base.skip(lead);
    assert(is_absolute(j) == is_absolute(base));
    assert(starts_with_dot(j) == starts_with_dot(base)) by {
        if base.len() > 1 {
            assert(j[1] == base[1]);
        } else if base[0] == '.' {
            assert(j[1] == '/');
        }
    }
    assert(body(b + seq!['/'] + tail) == body(b) + body(tail)) by {
        lemma_body_split(b, tail);
    }
    if base.last() == '/' {
        if b.len() == 0 {
            assert(base.len() == 1 && is_absolute(base));
            assert(j.skip(1) =~= tail);
            assert(b =~= Seq::<char>::empty());
            assert(components(j) =~= components(base) + body(tail));
        } else {
            let c = b.drop_last();
            assert(b =~= c + seq!['/'] + Seq::<char>::empty());
            lemma_body_split(c, Seq::empty());
            lemma_body_split(c, tail);
            assert(j.skip(lead) =~= c + seq!['/'] + tail);
            assert(body(b) =~= body(c));
            assert(j.skip(0) =~= j);
            assert(base.skip(0) =~= base);
            assert(components(j) =~= components(base) + body(tail));
        }
    } else {
        assert(j.skip(lead) =~= b + seq!['/'] + tail);
        assert(j.skip(0) =~= j);
        assert(base.skip(0) =~= base);
        assert(components(j) =~= components(base) + body(tail));
    }
}

// ---------------------------------------------------------------------------
// Lexical normalization
// ---------------------------------------------------------------------------

/// The components `cs` without dots, and with each `..` taken together with the component
/// before it. A `..` that has no component before it, or only the root, stays.
pub open spec fn normalized(cs: Seq<Component>) -> Seq<Component>
    decreases cs.len(),
{
    if cs.len() == 0 {
        Seq::empty()
    } else {
        let before = normalized(cs.drop_last());
        match cs.last() {
            Component::CurDir => before,
            Component::ParentDir => if before.len() > 0 && before.last() != Component::RootDir {
                before.drop_last()
            } else {
                before.push(Component::ParentDir)
            },
            other => before.push(other),
        }
    }
}

/// The text of a component.
pub open spec fn component_text(c: Component) -> Seq<char> {
    match c {
        Component::RootDir => seq!['/'],
        Component::CurDir => seq!['.'],
        Component::ParentDir => seq!['.', '.'],
        Component::Normal(name) => name,
    }
}

/// The text of the path made of the components `cs`.
pub open spec fn rendered(cs: Seq<Component>) -> Seq<char>
    decreases cs.len(),
{
    if cs.len() == 0 {
        Seq::empty()
    } else {
        joined(rendered(cs.drop_last()), component_text(cs.last()))
    }
}

/// `path` in lexically normal form.
pub open spec fn normal_path(path: Seq<char>) -> Seq<char> {
    rendered(normalized(components(path)))
}

/// Takes dots and `..` out of a list of components.
fn normalize_parts(parts: Vec<PathPart>) -> (r: Vec<PathPart>)
    ensures
        parts_view(r@) == normalized(parts_view(parts@)),
{
    let ghost all = parts_view(parts@);
    let mut r: Vec<PathPart> = Vec::new();
    assert(parts_view(r@) =~= normalized(all.take(0)));
    let mut i: usize = 0;
    while i < parts.len()
        invariant
            all == parts_view(parts@),
            i <= parts@.len(),
            parts_view(r@) == normalized(all.take(i as int)),
        decreases parts@.len() - i,
    {
        let ghost before = parts_view(r@);
        assert(all.take(i + 1).drop_last() =~= all.take(i as int));
        assert(all.take(i + 1).last() == parts@[i as int]@);
        match &parts[i] {
            PathPart::CurDir => {},
            PathPart::ParentDir => {
                let n = r.len();
                let keep = if n == 0 {
                    true
                } else {
                    match &r[n - 1] {
                        PathPart::RootDir => true,
                        _ => false,
                    }
                };
                assert(n > 0 ==> before.last() == r@[n - 1]@);
                if keep {
                    r.push(PathPart::ParentDir);
                    assert(parts_view(r@) =~= before.push(Component::ParentDir));
                } else {
                    let gone = r.pop();
                    assert(parts_view(r@) =~= before.drop_last());
                }
            },
            PathPart::RootDir => {
                r.push(PathPart::RootDir);
                assert(parts_view(r@) =~= before.push(Component::RootDir));
            },
            PathPart::Normal(name) => {
                let mut copy: Vec<char> = Vec::new();
                extend(&mut copy, name.as_slice());
                assert(copy@ =~= name@);
                r.push(PathPart::Normal(copy));
                assert(parts_view(r@) =~= before.push(Component::Normal(name@)));
            },
        }
        i += 1;
    }
    assert(all.take(i as int) =~= all);
    r
}

/// The text of one component.
fn part_text(p: &PathPart) -> (r: Vec<char>)
    ensures
        r@ == component_text(p@),
{
    let mut r: Vec<char> = Vec::new();
    match p {
        PathPart::RootDir => {
            r.push('/');
        },
        PathPart::CurDir => {
            r.push('.');
        },
        PathPart::ParentDir => {
            r.push('.');
            r.push('.');
        },
        PathPart::Normal(name) => {
            extend(&mut r, name.as_slice());
        },
    }
    assert(r@ =~= component_text(p@));
    r
}

/// The text of the path made of the first `n` of `parts`.
fn render_parts(parts: &Vec<PathPart>, n: usize) -> (r: Vec<char>)
    requires
        n <= parts@.len(),
    ensures
        r@ == rendered(parts_view(parts@).take(n as int)),
{
    let ghost all = parts_view(parts@);
    let mut r: Vec<char> = Vec::new();
    assert(r@ =~= rendered(all.take(0)));
    let mut i: usize = 0;
    while i < n
        invariant
            n <= parts@.len(),
            all == parts_view(parts@),
            i <= n,
            r@ == rendered(all.take(i as int)),
        decreases n - i,
    {
        assert(all.take(i + 1).drop_last() =~= all.take(i as int));
        assert(all.take(i + 1).last() == parts@[i as int]@);
        let t = part_text(&parts[i]);
        r = join(r.as_slice(), t.as_slice());
        i += 1;
    }
    r
}

/// `path` in lexically normal form.
pub fn normalize_path_lexically(path: &str) -> (r: String)
    ensures
        r@ == normal_path(path@),
{
    let cs = to_chars(path);
    let parts = normalize_parts(path_parts(cs.as_slice()));
    let t = render_parts(&parts, parts.len());
    assert(parts_view(parts@).take(parts@.len() as int) =~= parts_view(parts@));
    to_text(t.as_slice())
}

/// The path that `value` stands for in `workspace`.
pub open spec fn resolved(workspace: Seq<char>, value: Seq<char>) -> Seq<char> {
    normal_path(joined(workspace, value))
}

/// The path that `value` stands for: itself if it is absolute, below `workspace_dir` if it is
/// not, and in lexically normal form.
pub fn resolve_path(workspace_dir: &str, value: &str) -> (r: String)
    ensures
        r@ == resolved(workspace_dir@, value@),
{
    let absolute = join_path(workspace_dir, value);
    normalize_path_lexically(absolute.as_str())
}

/// `path` with `/` in place of every backslash.
pub fn path_to_string(path: &str) -> (r: String)
    ensures
        r@ == text::replaced(path@, '\\', '/'),
{
    replace(path, '\\', '/')
}

/// The text by which two settings are held to name the same place.
pub open spec fn path_key(workspace: Seq<char>, value: Seq<char>) -> Seq<char> {
    text::replaced(resolved(workspace, value), '\\', '/')
}

/// The text by which two settings are held to name the same place.
pub fn resolved_path_key(workspace_dir: &str, value: &str) -> (r: String)
    ensures
        r@ == path_key(workspace_dir@, value@),
{
    let path = resolve_path(workspace_dir, value);
    path_to_string(path.as_str())
}

// ---------------------------------------------------------------------------
// Laws of normalization
// ---------------------------------------------------------------------------

/// Whether the components `cs` hold no dot, and no `..` but at the very start or right after
/// the root.
pub open spec fn is_normal(cs: Seq<Component>) -> bool {
    forall|i: int|
        0 <= i < cs.len() ==> (#[trigger] cs[i]) != Component::CurDir && (cs[i]
            == Component::ParentDir ==> i == 0 || cs[i - 1] == Component::RootDir)
}

/// Normalization gives components in normal form.
pub proof fn lemma_normalized_is_normal(cs: Seq<Component>)
    ensures
        is_normal(normalized(cs)),
    decreases cs.len(),
{
    if cs.len() > 0 {
        let before = normalized(cs.drop_last());
        lemma_normalized_is_normal(cs.drop_last());
        let after = normalized(cs);
        assert forall|i: int| 0 <= i < after.len() implies (#[trigger] after[i])
            != Component::CurDir && (after[i] == Component::ParentDir ==> i == 0 || after[i - 1]
            == Component::RootDir) by {
            if i < before.len() {
                assert(after[i] == before[i]);
                if i > 0 {
                    assert(after[i - 1] == before[i - 1]);
                }
            }
        }
    }
}

/// What is in normal form stays as it is.
pub proof fn lemma_normal_is_fixed(cs: Seq<Component>)
    requires
        is_normal(cs),
    ensures
        normalized(cs) == cs,
    decreases cs.len(),
{
    if cs.len() > 0 {
        let d = cs.drop_last();
        assert forall|i: int| 0 <= i < d.len() implies (#[trigger] d[i]) != Component::CurDir && (
        d[i] == Component::ParentDir ==> i == 0 || d[i - 1] == Component::RootDir) by {
            assert(d[i] == cs[i]);
        }
        lemma_normal_is_fixed(d);
        let last = cs[cs.len() - 1];
        assert(d.push(last) =~= cs);
    } else {
        assert(normalized(cs) =~= cs);
    }
}

/// Normalizing twice is normalizing once.
pub proof fn lemma_normalized_twice(cs: Seq<Component>)
    ensures
        normalized(normalized(cs)) == normalized(cs),
{
    lemma_normalized_is_normal(cs);
    lemma_normal_is_fixed(normalized(cs));
}

/// Dots make no difference to the normal form.
proof fn lemma_normalized_skips_dot(a: Seq<Component>, b: Seq<Component>)
    ensures
        normalized(a + seq![Component::CurDir] + b) == normalized(a + b),
    decreases b.len(),
{
    let s = a + seq![Component::CurDir] + b;
    if b.len() == 0 {
        assert(s.drop_last() =~= a);
        assert(a + b =~= a);
        assert(s.last() == Component::CurDir);
    } else {
        lemma_normalized_skips_dot(a, b.drop_last());
        assert(s.drop_last() =~= a + seq![Component::CurDir] + b.drop_last());
        assert((a + b).drop_last() =~= a + b.drop_last());
    }
}

/// Whether `c` is a component that a text between two separators can stand for.
pub open spec fn is_segment(c: Component) -> bool {
    match c {
        Component::RootDir => false,
        Component::CurDir => false,
        Component::ParentDir => true,
        Component::Normal(name) => part(name) == seq![c] && !name.contains('/'),
    }
}

proof fn lemma_body_segments(s: Seq<char>)
    ensures
        forall|i: int| 0 <= i < body(s).len() ==> is_segment(#[trigger] body(s)[i]),
    decreases s.len(),
{
    if s.len() > 0 {
        text::lemma_find(s, '/');
        let k = text::find(s, '/');
        let head = s.take(k);
        let rest = after_segment(s);
        lemma_body_segments(rest);
        assert(!head.contains('/')) by {
            if head.contains('/') {
                let i = choose|i: int| 0 <= i < head.len() && head[i] == '/';
                assert(s[i] == '/');
            }
        }
        let p = part(head);
        assert forall|i: int| 0 <= i < body(s).len() implies is_segment(
            #[trigger] body(s)[i],
        ) by {
            if i < p.len() {
                assert(body(s)[i] == p[i]);
                assert(p =~= seq![p[0]]);
            } else {
                assert(body(s)[i] == body(rest)[i - p.len()]);
            }
        }
    }
}

/// Whether `cs` are components that a path can have: the root only at the start, and
/// otherwise segments.
pub open spec fn is_path(cs: Seq<Component>) -> bool {
    forall|i: int|
        0 <= i < cs.len() ==> is_segment(#[trigger] cs[i]) || (i == 0 && cs[i] == Component::RootDir)
}

pub proof fn lemma_normalized_is_path(cs: Seq<Component>)
    requires
        forall|i: int|
            0 <= i < cs.len() ==> is_segment(#[trigger] cs[i]) || (i == 0 && (cs[i]
                == Component::RootDir || cs[i] == Component::CurDir)),
    ensures
        is_path(normalized(cs)),
        normalized(cs).len() <= cs.len(),
        cs.len() > 0 && cs[0] == Component::RootDir ==> normalized(cs).len() > 0 && normalized(
            cs,
        )[0] == Component::RootDir,
    decreases cs.len(),
{
    if cs.len() > 0 {
        let d = cs.drop_last();
        assert forall|i: int| 0 <= i < d.len() implies is_segment(#[trigger] d[i]) || (i == 0 && (
        d[i] == Component::RootDir || d[i] == Component::CurDir)) by {
            assert(d[i] == cs[i]);
        }
        lemma_normalized_is_path(d);
        let before = normalized(d);
        let after = normalized(cs);
        let last = cs[cs.len() - 1];
        assert forall|i: int| 0 <= i < after.len() implies is_segment(#[trigger] after[i]) || (i
            == 0 && after[i] == Component::RootDir) by {
            if i < before.len() {
                assert(after[i] == before[i]);
            }
        }
        if cs[0] == Component::RootDir && d.len() > 0 {
            assert(d[0] == cs[0]);
            if before.len() == 1 {
                assert(before.last() == Component::RootDir);
            }
            assert(after[0] == before[0]);
        }
    }
}

/// The components of a path are components that a path can have, but for a leading dot.
pub proof fn lemma_components_shape(s: Seq<char>)
    ensures
        forall|i: int|
            0 <= i < components(s).len() ==> is_segment(#[trigger] components(s)[i]) || (i == 0 && (
            components(s)[i] == Component::RootDir || components(s)[i] == Component::CurDir)),
        is_absolute(s) ==> components(s).len() > 0 && components(s)[0] == Component::RootDir,
{
    lemma_body_segments(s);
    lemma_body_segments(s.skip(1));
    let cs = components(s);
    assert forall|i: int| 0 <= i < cs.len() implies is_segment(#[trigger] cs[i]) || (i == 0 && (
    cs[i] == Component::RootDir || cs[i] == Component::CurDir)) by {
        if is_absolute(s) || starts_with_dot(s) {
            if i > 0 {
                assert(cs[i] == body(s.skip(1))[i - 1]);
            }
        }
    }
}

proof fn lemma_segment_text(c: Component)
    requires
        is_segment(c),
    ensures
        component_text(c).len() > 0,
        !component_text(c).contains('/'),
        !is_absolute(component_text(c)),
        !starts_with_dot(component_text(c)),
        body(component_text(c)) == seq![c],
        component_text(c).last() != '/',
{
    let t = component_text(c);
    assert(!t.contains('/'));
    text::lemma_find(t, '/');
    assert(t.take(t.len() as int) =~= t);
    assert(part(t) == seq![c]);
    assert(t.len() > 0) by {
        if t.len() == 0 {
            assert(part(t).len() == 0);
        }
    }
    assert(after_segment(t) =~= Seq::<char>::empty());
    assert(body(after_segment(t)) =~= Seq::empty());
    assert(body(t) =~= seq![c]);
    assert(t.contains(t[0]));
    assert(t.contains(t.last()));
    assert(!starts_with_dot(t)) by {
        if starts_with_dot(t) {
            if t.len() == 1 {
                assert(t =~= seq!['.']);
                assert(part(t).len() == 0);
            } else {
                assert(t.contains(t[1]));
            }
        }
    }
}

/// A path is read back from its text, component by component.
pub proof fn lemma_components_rendered(cs: Seq<Component>)
    requires
        is_path(cs),
    ensures
        components(rendered(cs)) == cs,
        cs.len() > 0 ==> rendered(cs).len() > 0,
        cs.len() > 0 && cs[0] == Component::RootDir ==> is_absolute(rendered(cs)),
    decreases cs.len(),
{
    let text = rendered(cs);
    if cs.len() == 0 {
        assert(components(text) =~= cs);
    } else {
        let d = cs.drop_last();
        let last = cs[cs.len() - 1];
        assert forall|i: int| 0 <= i < d.len() implies is_segment(#[trigger] d[i]) || (i == 0
            && d[i] == Component::RootDir) by {
            assert(d[i] == cs[i]);
        }
        lemma_components_rendered(d);
        let base = rendered(d);
        let tail = component_text(last);
        if d.len() == 0 {
            assert(base =~= Seq::<char>::empty());
            assert(text =~= tail);
            if last == Component::RootDir {
                assert(text.skip(1) =~= Seq::<char>::empty());
                assert(body(text.skip(1)) =~= Seq::empty());
                assert(components(text) =~= cs);
            } else {
                lemma_segment_text(last);
                assert(components(text) =~= cs);
            }
        } else {
            lemma_segment_text(last);
            lemma_components_joined(base, tail);
            assert(components(text) =~= d + seq![last]);
            assert(d + seq![last] =~= cs);
            if cs[0] == Component::RootDir {
                assert(d[0] == cs[0]);
                assert(text[0] == base[0]);
            }
        }
    }
}

/// A path in normal form stays as it is when it is normalized again.
pub proof fn law_normal_path_is_fixed(path: Seq<char>)
    ensures
        normal_path(normal_path(path)) == normal_path(path),
{
    let cs = components(path);
    lemma_components_shape(path);
    lemma_normalized_is_path(cs);
    lemma_components_rendered(normalized(cs));
    lemma_normalized_twice(cs);
}

/// In an absolute workspace every setting resolves to an absolute path.
pub proof fn law_resolved_is_absolute(workspace: Seq<char>, value: Seq<char>)
    requires
        is_absolute(workspace),
    ensures
        is_absolute(resolved(workspace, value)),
{
    let j = joined(workspace, value);
    assert(is_absolute(j));
    lemma_components_shape(j);
    lemma_normalized_is_path(components(j));
    lemma_components_rendered(normalized(components(j)));
}

/// In an absolute workspace, resolving what was resolved changes nothing.
pub proof fn law_resolve_twice(workspace: Seq<char>, value: Seq<char>)
    requires
        is_absolute(workspace),
    ensures
        resolved(workspace, resolved(workspace, value)) == resolved(workspace, value),
{
    law_resolved_is_absolute(workspace, value);
    law_normal_path_is_fixed(joined(workspace, value));
}

/// A leading `./` makes no difference to what a relative path resolves to.
pub proof fn law_dot_prefix_is_ignored(workspace: Seq<char>, value: Seq<char>)
    requires
        !is_absolute(value),
    ensures
        resolved(workspace, seq!['.', '/'] + value) == resolved(workspace, value),
{
    let dotted = seq!['.', '/'] + value;
    assert(!is_absolute(dotted));
    if workspace.len() > 0 {
        lemma_components_joined(workspace, value);
        lemma_components_joined(workspace, dotted);
        lemma_body_split(seq!['.'], value);
        assert(dotted =~= seq!['.'] + seq!['/'] + value);
        lemma_dot_body();
        assert(body(dotted) =~= body(value));
    } else {
        assert(dotted.skip(1) =~= Seq::<char>::empty() + seq!['/'] + value);
        lemma_body_split(Seq::empty(), value);
        assert(body(dotted.skip(1)) =~= body(value));
        let none = Seq::<Component>::empty();
        if starts_with_dot(value) {
            let rest = value.skip(1);
            assert(components(value) =~= none + seq![Component::CurDir] + body(rest));
            assert(body(value) =~= body(rest)) by {
                if value.len() == 1 {
                    assert(value =~= seq!['.']);
                    lemma_dot_body();
                    assert(rest =~= Seq::<char>::empty());
                } else {
                    assert(value =~= seq!['.'] + seq!['/'] + value.skip(2));
                    lemma_body_split(seq!['.'], value.skip(2));
                    lemma_dot_body();
                    assert(rest =~= Seq::<char>::empty() + seq!['/'] + value.skip(2));
                    lemma_body_split(Seq::empty(), value.skip(2));
                }
            }
            lemma_normalized_skips_dot(none, body(rest));
            assert(none + body(rest) =~= body(rest));
            assert(components(dotted) =~= none + seq![Component::CurDir] + body(rest));
        } else {
            assert(components(dotted) =~= none + seq![Component::CurDir] + body(value));
            lemma_normalized_skips_dot(none, body(value));
            assert(none + body(value) =~= body(value));
        }
    }
}

proof fn lemma_dot_body()
    ensures
        body(seq!['.']) == Seq::<Component>::empty(),
{
    let d = seq!['.'];
    text::lemma_find_at(d, '/', 1);
    assert(d.take(1) =~= d);
    assert(after_segment(d) =~= Seq::<char>::empty());
    assert(body(after_segment(d)) =~= Seq::empty());
    assert(body(d) =~= Seq::empty());
}

// ---------------------------------------------------------------------------
// Parents
// ---------------------------------------------------------------------------

/// The components of the directory that holds the path `cs`. The root and the empty path
/// have none.
pub open spec fn parent(cs: Seq<Component>) -> Option<Seq<Component>> {
    if cs.len() == 0 || cs.last() == Component::RootDir {
        None
    } else {
        Some(cs.drop_last())
    }
}

/// The texts of the path `cs`, of its parent, of the parent of that, and so on.
pub open spec fn lineage(cs: Seq<Component>) -> Seq<Seq<char>>
    decreases cs.len(),
{
    seq![rendered(cs)] + match parent(cs) {
        Some(p) => lineage(p),
        None => Seq::empty(),
    }
}

/// Whether the component is the root.
fn is_root(p: &PathPart) -> (r: bool)
    ensures
        r == (p@ == Component::RootDir),
{
    match p {
        PathPart::RootDir => true,
        _ => false,
    }
}

/// The texts that a vector of strings holds.
pub open spec fn strings(v: Seq<String>) -> Seq<Seq<char>> {
    Seq::new(v.len(), |i: int| v[i]@)
}

/// `path` in normal form and every directory above it, from the innermost to the outermost.
pub fn path_lineage(path: &str) -> (r: Vec<String>)
    ensures
        strings(r@) == lineage(normalized(components(path@))),
        r@.len() > 0,
{
    let cs = to_chars(path);
    let parts = normalize_parts(path_parts(cs.as_slice()));
    let ghost all = parts_view(parts@);
    let mut r: Vec<String> = Vec::new();
    let mut n: usize = parts.len();
    let first = render_parts(&parts, n);
    r.push(to_text(first.as_slice()));
    assert(all.take(n as int) =~= all);
    assert(strings(r@) =~= seq![rendered(all)]);
    assert(strings(r@) + match parent(all) {
        Some(p) => lineage(p),
        None => Seq::empty(),
    } =~= lineage(all));
    while n > 0 && !is_root(&parts[n - 1])
        invariant
            all == parts_view(parts@),
            n <= parts@.len(),
            r@.len() > 0,
            strings(r@) + (match parent(all.take(n as int)) {
                Some(p) => lineage(p),
                None => Seq::empty(),
            }) == lineage(all),
        decreases n,
    {
        let ghost before = strings(r@);
        let ghost here = all.take(n as int);
        assert(here.last() == parts@[n - 1]@);
        assert(here.drop_last() =~= all.take(n - 1));
        n -= 1;
        let t = render_parts(&parts, n);
        r.push(to_text(t.as_slice()));
        assert(strings(r@) =~= before.push(t@));
        assert(before + (seq![t@] + match parent(all.take(n as int)) {
            Some(p) => lineage(p),
            None => Seq::empty(),
        }) =~= strings(r@) + match parent(all.take(n as int)) {
            Some(p) => lineage(p),
            None => Seq::empty(),
        });
    }
    assert(n > 0 ==> all.take(n as int).last() == parts@[n - 1]@);
    assert(strings(r@) =~= lineage(all));
    r
}

// ---------------------------------------------------------------------------
// Relative paths
// ---------------------------------------------------------------------------

/// The text of `s` from its component number `k` on, where `s` has no root and no leading dot.
pub open spec fn body_from(s: Seq<char>, k: nat) -> Seq<char>
    decreases s.len(),
    via body_from_decreases
{
    if s.len() == 0 {
        s
    } else if part(s.take(text::find(s, '/'))).len() == 0 {
        body_from(after_segment(s), k)
    } else if k == 0 {
        s
    } else {
        body_from(after_segment(s), (k - 1) as nat)
    }
}

#[via_fn]
proof fn body_from_decreases(s: Seq<char>, k: nat) {
    text::lemma_find(s, '/');
}

/// How many characters of `s` its root or its leading dot takes.
pub open spec fn lead_len(s: Seq<char>) -> nat {
    if is_absolute(s) || starts_with_dot(s) {
        1
    } else {
        0
    }
}

/// `s` without the separators and dots at its end, but no shorter than `keep`.
pub open spec fn tail_trimmed(s: Seq<char>, keep: nat) -> Seq<char>
    decreases s.len(),
{
    if s.len() > keep && (s.last() == '/' || (s.last() == '.' && (s.len() == keep + 1
        || s[s.len() - 2] == '/'))) {
        tail_trimmed(s.drop_last(), keep)
    } else {
        s
    }
}

/// The text of the path `s` from its component number `k` on.
pub open spec fn text_from(s: Seq<char>, k: nat) -> Seq<char> {
    if k == 0 {
        tail_trimmed(s, lead_len(s))
    } else if lead_len(s) == 1 {
        tail_trimmed(body_from(s.skip(1), (k - 1) as nat), 0)
    } else {
        tail_trimmed(body_from(s, k), 0)
    }
}

/// What is left of the path `s` below the directory `base`, if `s` lies in it.
pub open spec fn relative_to(base: Seq<char>, s: Seq<char>) -> Option<Seq<char>> {
    let b = components(base);
    let c = components(s);
    if b.len() <= c.len() && c.take(b.len() as int) == b {
        Some(text_from(s, b.len()))
    } else {
        None
    }
}

fn skip_body(s: &[char], k: usize) -> (r: &[char])
    ensures
        r@ == body_from(s@, k as nat),
{
    let mut rest = s;
    let mut left: usize = k;
    while rest.len() > 0
        invariant
            body_from(s@, k as nat) == body_from(rest@, left as nat),
        decreases rest@.len(),
    {
        let j = find_char(rest, '/');
        let head = slice_subrange(rest, 0, j);
        assert(head@ =~= rest@.take(j as int));
        let counts = !(head.len() == 0 || (head.len() == 1 && head[0] == '.'));
        assert(counts == (part(head@).len() > 0)) by {
            if head@.len() == 1 && head@[0] == '.' {
                assert(head@ =~= seq!['.']);
            }
        }
        if counts && left == 0 {
            return rest;
        }
        let start: usize = if j < rest.len() { j + 1 } else { rest.len() };
        let next = slice_subrange(rest, start, rest.len());
        assert(next@ =~= after_segment(rest@));
        if counts {
            left -= 1;
        }
        rest = next;
    }
    rest
}

fn trim_tail(s: &[char], keep: usize) -> (r: &[char])
    ensures
        r@ == tail_trimmed(s@, keep as nat),
{
    let mut n: usize = s.len();
    assert(s@.take(n as int) =~= s@);
    while n > keep && (s[n - 1] == '/' || (s[n - 1] == '.' && (n - 1 == keep || s[n - 2] == '/')))
        invariant
            n <= s@.len(),
            tail_trimmed(s@, keep as nat) == tail_trimmed(s@.take(n as int), keep as nat),
        decreases n,
    {
        assert(s@.take(n as int).drop_last() =~= s@.take(n - 1));
        n -= 1;
    }
    let r = slice_subrange(s, 0, n);
    assert(r@ =~= s@.take(n as int));
    r
}

/// Whether two components are the same.
fn same_part(a: &PathPart, b: &PathPart) -> (r: bool)
    ensures
        r == (a@ == b@),
{
    match (a, b) {
        (PathPart::RootDir, PathPart::RootDir) => true,
        (PathPart::CurDir, PathPart::CurDir) => true,
        (PathPart::ParentDir, PathPart::ParentDir) => true,
        (PathPart::Normal(x), PathPart::Normal(y)) => same(x.as_slice(), y.as_slice()),
        _ => false,
    }
}

/// What is left of `path` below the directory `base`, if it lies in it.
pub fn strip_base(base: &str, path: &str) -> (r: Option<String>)
    ensures
        match r {
            Some(t) => relative_to(base@, path@) == Some(t@),
            None => relative_to(base@, path@) is None,
        },
{
    let bs = to_chars(base);
    let ps = to_chars(path);
    let b = path_parts(bs.as_slice());
    let c = path_parts(ps.as_slice());
    let ghost bv = components(base@);
    let ghost cv = components(path@);
    if b.len() > c.len() {
        return None;
    }
    let mut i: usize = 0;
    while i < b.len()
        invariant
            bv == parts_view(b@),
            cv == parts_view(c@),
            bv == components(base@),
            cv == components(path@),
            b@.len() <= c@.len(),
            i <= b@.len(),
            forall|j: int| 0 <= j < i ==> bv[j] == cv[j],
        decreases b@.len() - i,
    {
        if !same_part(&b[i], &c[i]) {
            assert(bv[i as int] == b@[i as int]@);
            assert(cv.take(bv.len() as int)[i as int] == c@[i as int]@);
            return None;
        }
        assert(bv[i as int] == b@[i as int]@ && cv[i as int] == c@[i as int]@);
        i += 1;
    }
    assert(cv.take(bv.len() as int) =~= bv);
    let s = ps.as_slice();
    let lead = lead_of(s);
    let k = b.len();
    let t = if k == 0 {
        trim_tail(s, lead)
    } else if lead == 1 {
        let inner = slice_subrange(s, 1, s.len());
        assert(inner@ =~= s@.skip(1));
        trim_tail(skip_body(inner, k - 1), 0)
    } else {
        trim_tail(skip_body(s, k), 0)
    };
    Some(to_text(t))
}

/// `s` without the segment at its end, but no shorter than `keep`.
pub open spec fn segment_dropped(s: Seq<char>, keep: nat) -> Seq<char>
    decreases s.len(),
{
    if s.len() > keep && s.last() != '/' {
        segment_dropped(s.drop_last(), keep)
    } else {
        s
    }
}

/// The directory that holds `path`, as its text is written there. The root and the empty path
/// have none.
pub open spec fn parent_text(path: Seq<char>) -> Option<Seq<char>> {
    let keep = lead_len(path);
    let t = tail_trimmed(path, keep);
    if t.len() > keep {
        Some(tail_trimmed(segment_dropped(t, keep), keep))
    } else if starts_with_dot(path) {
        Some(Seq::empty())
    } else {
        None
    }
}

/// How many characters of `s` its root or its leading dot takes.
fn lead_of(s: &[char]) -> (r: usize)
    ensures
        r == lead_len(s@),
{
    if s.len() > 0 && (s[0] == '/' || (s[0] == '.' && (s.len() == 1 || s[1] == '/'))) {
        1
    } else {
        0
    }
}

fn drop_segment(s: &[char], keep: usize) -> (r: &[char])
    ensures
        r@ == segment_dropped(s@, keep as nat),
{
    let mut n: usize = s.len();
    assert(s@.take(n as int) =~= s@);
    while n > keep && s[n - 1] != '/'
        invariant
            n <= s@.len(),
            segment_dropped(s@, keep as nat) == segment_dropped(s@.take(n as int), keep as nat),
        decreases n,
    {
        assert(s@.take(n as int).drop_last() =~= s@.take(n - 1));
        n -= 1;
    }
    let r = slice_subrange(s, 0, n);
    assert(r@ =~= s@.take(n as int));
    r
}

/// The directory that holds `path`.
pub fn parent_path(path: &str) -> (r: Option<String>)
    ensures
        text::of_string(r) == parent_text(path@),
{
    let cs = to_chars(path);
    let s = cs.as_slice();
    let keep = lead_of(s);
    let t = trim_tail(s, keep);
    if t.len() > keep {
        Some(to_text(trim_tail(drop_segment(t, keep), keep)))
    } else if keep == 1 && s[0] == '.' {
        proof {
            reveal_strlit("");
            assert(""@ =~= Seq::<char>::empty());
        }
        Some("".to_owned())
    } else {
        None
    }
}

proof fn lemma_tail_trimmed_lead(s: Seq<char>, keep: nat)
    requires
        keep <= s.len(),
    ensures
        tail_trimmed(s, keep) == s.take(keep as int) + tail_trimmed(s.skip(keep as int), 0),
    decreases s.len(),
{
    let b = s.skip(keep as int);
    if s.len() > keep && (s.last() == '/' || (s.last() == '.' && (s.len() == keep + 1
        || s[s.len() - 2] == '/'))) {
        lemma_tail_trimmed_lead(s.drop_last(), keep);
        assert(s.drop_last().skip(keep as int) =~= b.drop_last());
        assert(s.drop_last().take(keep as int) =~= s.take(keep as int));
    } else {
        assert(s =~= s.take(keep as int) + b);
        assert(b.len() > 0 ==> b.last() == s.last());
        assert(b.len() > 1 ==> b[b.len() - 2] == s[s.len() - 2]);
    }
}

proof fn lemma_segment_dropped_lead(s: Seq<char>, keep: nat)
    requires
        keep <= s.len(),
    ensures
        segment_dropped(s, keep) == s.take(keep as int) + segment_dropped(s.skip(keep as int), 0),
    decreases s.len(),
{
    let b = s.skip(keep as int);
    if s.len() > keep && s.last() != '/' {
        lemma_segment_dropped_lead(s.drop_last(), keep);
        assert(s.drop_last().skip(keep as int) =~= b.drop_last());
        assert(s.drop_last().take(keep as int) =~= s.take(keep as int));
    } else {
        assert(s =~= s.take(keep as int) + b);
        assert(b.len() > 0 ==> b.last() == s.last());
    }
}

proof fn lemma_tail_trimmed_shape(s: Seq<char>)
    ensures
        tail_trimmed(s, 0).len() <= s.len(),
        tail_trimmed(s, 0) == s.take(tail_trimmed(s, 0).len() as int),
        ({
            let t = tail_trimmed(s, 0);
            t.len() > 0 ==> t.last() != '/' && (t.last() == '.' ==> t.len() > 1 && t[t.len() - 2]
                != '/')
        }),
    decreases s.len(),
{
    if s.len() > 0 && (s.last() == '/' || (s.last() == '.' && (s.len() == 1 || s[s.len() - 2]
        == '/'))) {
        lemma_tail_trimmed_shape(s.drop_last());
        let n = tail_trimmed(s, 0).len() as int;
        assert(s.drop_last().take(n) =~= s.take(n));
    } else {
        assert(s.take(s.len() as int) =~= s);
    }
}

proof fn lemma_segment_dropped_shape(s: Seq<char>)
    ensures
        segment_dropped(s, 0).len() <= s.len(),
        segment_dropped(s, 0) == s.take(segment_dropped(s, 0).len() as int),
        segment_dropped(s, 0).len() > 0 ==> segment_dropped(s, 0).last() == '/',
        forall|i: int| segment_dropped(s, 0).len() <= i < s.len() ==> #[trigger] s[i] != '/',
    decreases s.len(),
{
    if s.len() > 0 && s.last() != '/' {
        let d = s.drop_last();
        lemma_segment_dropped_shape(d);
        let n = segment_dropped(s, 0).len() as int;
        assert(d.take(n) =~= s.take(n));
        assert forall|i: int| n <= i < s.len() implies #[trigger] s[i] != '/' by {
            if i < d.len() {
                assert(d[i] == s[i]);
            }
        }
    } else {
        assert(s.take(s.len() as int) =~= s);
    }
}

/// Dropping the last segment of a trimmed text drops the last component.
proof fn lemma_segment_is_component(t: Seq<char>)
    requires
        t.len() > 0,
        t.last() != '/',
        t.last() == '.' ==> t.len() > 1 && t[t.len() - 2] != '/',
    ensures
        body(t).len() > 0,
        body(t).last() != Component::RootDir,
        body(segment_dropped(t, 0)) == body(t).drop_last(),
{
    let u = segment_dropped(t, 0);
    lemma_segment_dropped_shape(t);
    let seg = t.skip(u.len() as int);
    let none = Seq::<char>::empty();
    assert(u.len() < t.len());
    assert(seg.last() == t.last());
    assert forall|i: int| 0 <= i < seg.len() implies #[trigger] seg[i] != '/' by {
        assert(seg[i] == t[u.len() + i]);
    }
    text::lemma_find_at(seg, '/', seg.len() as int);
    assert(seg.take(seg.len() as int) =~= seg);
    assert(after_segment(seg) =~= none);
    assert(body(none) =~= Seq::empty());
    assert(body(seg) =~= part(seg));
    assert(seg != seq!['.']) by {
        if seg == seq!['.'] {
            assert(t.last() == '.');
            assert(t[t.len() - 2] == u.last());
        }
    }
    assert(part(seg).len() == 1);
    if u.len() == 0 {
        assert(seg =~= t);
        assert(u =~= none);
        assert(body(t).drop_last() =~= Seq::empty());
    } else {
        let v = u.drop_last();
        assert(u =~= v + seq!['/'] + none);
        assert(t =~= v + seq!['/'] + seg);
        lemma_body_split(v, none);
        lemma_body_split(v, seg);
        assert(body(t).drop_last() =~= body(v));
        assert(body(u) =~= body(v));
    }
}

/// The components of the directory that holds a path are those of the path without the last.
pub proof fn law_parent_has_one_component_less(path: Seq<char>)
    ensures
        match parent_text(path) {
            Some(p) => parent(components(path)) == Some(components(p)),
            None => parent(components(path)) is None,
        },
{
    let keep = lead_len(path);
    let b = path.skip(keep as int);
    let tb = tail_trimmed(b, 0);
    let head = path.take(keep as int);
    let none = Seq::<char>::empty();
    assert(path.skip(0) =~= path);
    lemma_tail_trimmed_lead(path, keep);
    lemma_tail_trimmed(b);
    lemma_tail_trimmed_shape(b);
    let t = tail_trimmed(path, keep);
    assert(t.len() == keep + tb.len());
    assert(body(none) =~= Seq::empty());
    if tb.len() == 0 {
        assert(tb =~= none);
        assert(body(b) =~= Seq::empty());
        assert(!is_absolute(none) && !starts_with_dot(none));
        assert(components(path).drop_last() =~= components(none) || !starts_with_dot(path));
    } else {
        let u = segment_dropped(tb, 0);
        let q = tail_trimmed(u, 0);
        lemma_segment_is_component(tb);
        lemma_segment_dropped_shape(tb);
        lemma_tail_trimmed(u);
        lemma_tail_trimmed_shape(u);
        lemma_segment_dropped_lead(t, keep);
        assert(t.skip(keep as int) =~= tb);
        assert(t.take(keep as int) =~= head);
        let hu = head + u;
        assert(segment_dropped(t, keep) == hu);
        lemma_tail_trimmed_lead(hu, keep);
        assert(hu.skip(keep as int) =~= u);
        assert(hu.take(keep as int) =~= head);
        let p = head + q;
        assert(parent_text(path) == Some(p));
        assert(body(q) == body(b).drop_last());
        assert(p.skip(keep as int) =~= q);
        assert forall|i: int| 0 <= i < q.len() implies #[trigger] q[i] == b[i] by {
            assert(q[i] == u[i]);
            assert(u[i] == tb[i]);
        }
        if keep == 0 {
            assert(p =~= q);
            assert(head =~= none);
            assert(!is_absolute(p));
            assert(!starts_with_dot(p)) by {
                if starts_with_dot(p) {
                    assert(q.len() > 1);
                    assert(b[0] == '.' && b[1] == '/');
                }
            }
            assert(components(p) == body(q));
            assert(components(path) == body(b));
        } else {
            assert(p[0] == path[0]);
            if is_absolute(path) {
                assert(components(p) =~= components(path).drop_last());
            } else {
                assert(b[0] == path[1]);
                if q.len() > 0 {
                    assert(p[1] == q[0]);
                }
                assert(starts_with_dot(p));
                assert(components(p) =~= components(path).drop_last());
            }
            assert(components(path).last() == body(b).last());
        }
    }
}

proof fn lemma_tail_trimmed(s: Seq<char>)
    ensures
        body(tail_trimmed(s, 0)) == body(s),
        tail_trimmed(s, 0).len() > 0 ==> tail_trimmed(s, 0)[0] == s[0],
        tail_trimmed(s, 0).len() <= s.len(),
    decreases s.len(),
{
    if s.len() > 0 && (s.last() == '/' || (s.last() == '.' && (s.len() == 1 || s[s.len() - 2]
        == '/'))) {
        let t = s.drop_last();
        lemma_tail_trimmed(t);
        let none = Seq::<char>::empty();
        if s.last() == '/' {
            assert(s =~= t + seq!['/'] + none);
            lemma_body_split(t, none);
            assert(body(s) =~= body(t));
        } else if s.len() == 1 {
            assert(s =~= seq!['.']);
            assert(t =~= none);
            lemma_dot_body();
        } else {
            let u = t.drop_last();
            assert(t =~= u + seq!['/'] + none);
            assert(s =~= u + seq!['/'] + seq!['.']);
            lemma_body_split(u, none);
            lemma_body_split(u, seq!['.']);
            lemma_dot_body();
            assert(body(s) =~= body(t));
        }
    }
}

proof fn lemma_body_from(s: Seq<char>, k: nat)
    requires
        k <= body(s).len(),
    ensures
        body(body_from(s, k)) == body(s).skip(k as int),
        !is_absolute(body_from(s, k)),
    decreases s.len(),
{
    if s.len() == 0 {
        assert(body(s).skip(k as int) =~= body(s));
    } else {
        text::lemma_find(s, '/');
        let seg = s.take(text::find(s, '/'));
        if part(seg).len() == 0 {
            assert(body(s) =~= body(after_segment(s)));
            lemma_body_from(after_segment(s), k);
        } else if k == 0 {
            assert(body(s).skip(0) =~= body(s));
            if s[0] == '/' {
                text::lemma_find_at(s, '/', 0);
                assert(seg.len() == 0);
            }
        } else {
            lemma_body_from(after_segment(s), (k - 1) as nat);
            assert(body(s).skip(k as int) =~= body(after_segment(s)).skip(k - 1));
        }
    }
}

/// What is left of a path below an absolute directory is relative, and gives the path again
/// when it is taken from that directory.
pub proof fn law_relative_path_leads_back(base: Seq<char>, s: Seq<char>)
    requires
        is_absolute(base),
        relative_to(base, s) is Some,
    ensures
        !is_absolute(relative_to(base, s)->0),
        components(joined(base, relative_to(base, s)->0)) == components(s),
        resolved(base, relative_to(base, s)->0) == normal_path(s),
{
    let b = components(base);
    let c = components(s);
    let k = b.len();
    let rel = relative_to(base, s)->0;
    assert(c.take(k as int)[0] == b[0]);
    assert(c[0] == Component::RootDir);
    lemma_root_is_first(s);
    assert(is_absolute(s));
    let inner = s.skip(1);
    lemma_body_from(inner, (k - 1) as nat);
    lemma_tail_trimmed(body_from(inner, (k - 1) as nat));
    assert(body(rel) =~= c.skip(k as int));
    lemma_components_joined(base, rel);
    assert(c.take(k as int) + c.skip(k as int) =~= c);
}

/// A single dot resolves to what nothing resolves to.
pub proof fn law_dot_is_workspace(workspace: Seq<char>)
    requires
        workspace.len() > 0,
    ensures
        resolved(workspace, seq!['.']) == resolved(workspace, Seq::empty()),
        resolved(workspace, Seq::empty()) == normal_path(workspace),
{
    let none = Seq::<char>::empty();
    lemma_components_joined(workspace, seq!['.']);
    lemma_components_joined(workspace, none);
    lemma_dot_body();
    assert(components(workspace) + body(none) =~= components(workspace));
    assert(components(workspace) + body(seq!['.']) =~= components(workspace));
}

proof fn lemma_tail_trimmed_chars(s: Seq<char>, keep: nat, c: char)
    requires
        !s.contains(c),
    ensures
        !tail_trimmed(s, keep).contains(c),
    decreases s.len(),
{
    if s.len() > keep && (s.last() == '/' || (s.last() == '.' && (s.len() == keep + 1
        || s[s.len() - 2] == '/'))) {
        let t = s.drop_last();
        assert(!t.contains(c)) by {
            if t.contains(c) {
                let k = choose|k: int| 0 <= k < t.len() && t[k] == c;
                assert(s[k] == c);
            }
        }
        lemma_tail_trimmed_chars(t, keep, c);
    }
}

proof fn lemma_body_from_chars(s: Seq<char>, k: nat, c: char)
    requires
        !s.contains(c),
    ensures
        !body_from(s, k).contains(c),
    decreases s.len(),
{
    if s.len() > 0 {
        text::lemma_find(s, '/');
        let t = after_segment(s);
        assert(!t.contains(c)) by {
            if t.contains(c) {
                let i = choose|i: int| 0 <= i < t.len() && t[i] == c;
                assert(s[i + text::find(s, '/') + 1] == c);
            }
        }
        lemma_body_from_chars(t, k, c);
        if k > 0 {
            lemma_body_from_chars(t, (k - 1) as nat, c);
        }
    }
}

/// What is left of a path below a directory holds no backslash if the path holds none.
pub proof fn lemma_relative_chars(base: Seq<char>, s: Seq<char>)
    requires
        relative_to(base, s) is Some,
        !s.contains('\\'),
    ensures
        !(relative_to(base, s)->0).contains('\\'),
{
    let c = '\\';
    let k = components(base).len();
    if k == 0 {
        lemma_tail_trimmed_chars(s, lead_len(s), c);
    } else if lead_len(s) == 1 {
        let inner = s.skip(1);
        assert(!inner.contains(c)) by {
            if inner.contains(c) {
                let i = choose|i: int| 0 <= i < inner.len() && inner[i] == c;
                assert(s[i + 1] == c);
            }
        }
        lemma_body_from_chars(inner, (k - 1) as nat, c);
        lemma_tail_trimmed_chars(body_from(inner, (k - 1) as nat), 0, c);
    } else {
        lemma_body_from_chars(s, k, c);
        lemma_tail_trimmed_chars(body_from(s, k), 0, c);
    }
}

proof fn lemma_body_holds_no_root(s: Seq<char>, i: int)
    requires
        0 <= i < body(s).len(),
    ensures
        body(s)[i] != Component::RootDir,
    decreases s.len(),
{
    text::lemma_find(s, '/');
    let first = part(s.take(text::find(s, '/')));
    if i >= first.len() {
        lemma_body_holds_no_root(after_segment(s), i - first.len());
    }
}

proof fn lemma_root_is_first(s: Seq<char>)
    requires
        components(s).len() > 0,
        components(s)[0] == Component::RootDir,
    ensures
        is_absolute(s),
{
    if !is_absolute(s) && !starts_with_dot(s) {
        lemma_body_holds_no_root(s, 0);
    }
}

// ---------------------------------------------------------------------------
// Extensions
// ---------------------------------------------------------------------------

/// The index of the last `c` in `s`, or -1 where there is none.
pub open spec fn rfind(s: Seq<char>, c: char) -> int
    decreases s.len(),
{
    if s.len() == 0 {
        -1
    } else if s.last() == c {
        s.len() - 1
    } else {
        rfind(s.drop_last(), c)
    }
}

/// What follows the last dot of the file name of `path`. A dot that starts the name is not
/// held for one that ends it.
pub open spec fn extension(path: Seq<char>) -> Option<Seq<char>> {
    let cs = components(path);
    if cs.len() > 0 {
        match cs.last() {
            Component::Normal(name) => if rfind(name, '.') > 0 {
                Some(name.skip(rfind(name, '.') + 1))
            } else {
                None
            },
            _ => None,
        }
    } else {
        None
    }
}

/// What follows the last dot of the file name of `path`.
pub fn path_extension(path: &str) -> (r: Option<Vec<char>>)
    ensures
        match r {
            Some(e) => extension(path@) == Some(e@),
            None => extension(path@) is None,
        },
{
    let cs = to_chars(path);
    let parts = path_parts(cs.as_slice());
    let n = parts.len();
    if n == 0 {
        return None;
    }
    assert(components(path@).last() == parts@[n - 1]@);
    match &parts[n - 1] {
        PathPart::Normal(name) => {
            let mut k: usize = name.len();
            assert(name@.take(k as int) =~= name@);
            while k > 0 && name[k - 1] != '.'
                invariant
                    k <= name@.len(),
                    rfind(name@, '.') == rfind(name@.take(k as int), '.'),
                decreases k,
            {
                assert(name@.take(k as int).drop_last() =~= name@.take(k - 1));
                k -= 1;
            }
            assert(rfind(name@, '.') == k - 1);
            if k <= 1 {
                None
            } else {
                let tail = slice_subrange(name.as_slice(), k, name.len());
                assert(tail@ =~= name@.skip(k as int));
                let mut e: Vec<char> = Vec::new();
                extend(&mut e, tail);
                assert(e@ =~= tail@);
                Some(e)
            }
        },
        _ => None,
    }
}

// ---------------------------------------------------------------------------
// Order
// ---------------------------------------------------------------------------

/// Whether the text `a` stands before `b`, by code points.
pub open spec fn text_lt(a: Seq<char>, b: Seq<char>) -> bool
    decreases a.len(),
{
    if b.len() == 0 {
        false
    } else if a.len() == 0 {
        true
    } else {
        a[0] < b[0] || (a[0] == b[0] && text_lt(a.skip(1), b.skip(1)))
    }
}

/// The place of a kind of component among the kinds.
pub open spec fn component_rank(c: Component) -> int {
    match c {
        Component::RootDir => 0,
        Component::CurDir => 1,
        Component::ParentDir => 2,
        Component::Normal(_) => 3,
    }
}

/// Whether the component `a` stands before `b`: the root first, then a dot, then `..`, then
/// names by their text.
pub open spec fn component_lt(a: Component, b: Component) -> bool {
    match (a, b) {
        (Component::Normal(x), Component::Normal(y)) => text_lt(x, y),
        _ => component_rank(a) < component_rank(b),
    }
}

/// Whether the path `a` stands before `b`: component by component, a directory before what
/// lies in it.
pub open spec fn path_lt(a: Seq<Component>, b: Seq<Component>) -> bool
    decreases a.len(),
{
    if b.len() == 0 {
        false
    } else if a.len() == 0 {
        true
    } else {
        component_lt(a[0], b[0]) || (a[0] == b[0] && path_lt(a.skip(1), b.skip(1)))
    }
}

proof fn lemma_text_order(a: Seq<char>, b: Seq<char>, c: Seq<char>)
    ensures
        !text_lt(a, a),
        text_lt(a, b) || text_lt(b, a) || a == b,
        text_lt(a, b) && text_lt(b, c) ==> text_lt(a, c),
    decreases a.len(),
{
    if a.len() > 0 {
        lemma_text_order(a.skip(1), b.skip(1), c.skip(1));
        if b.len() > 0 && a[0] == b[0] && a.skip(1) == b.skip(1) {
            assert(a =~= seq![a[0]] + a.skip(1));
            assert(b =~= seq![b[0]] + b.skip(1));
        }
    } else if b.len() == 0 {
        assert(a =~= b);
    }
}

proof fn lemma_component_order(a: Component, b: Component, c: Component)
    ensures
        !component_lt(a, a),
        component_lt(a, b) || component_lt(b, a) || a == b,
        component_lt(a, b) && component_lt(b, c) ==> component_lt(a, c),
{
    let x = component_text(a);
    let y = component_text(b);
    let z = component_text(c);
    lemma_text_order(x, y, z);
    lemma_text_order(x, x, x);
}

/// The order of paths is a strict total order.
pub proof fn lemma_path_order(a: Seq<Component>, b: Seq<Component>, c: Seq<Component>)
    ensures
        !path_lt(a, a),
        path_lt(a, b) || path_lt(b, a) || a == b,
        path_lt(a, b) && path_lt(b, c) ==> path_lt(a, c),
    decreases a.len(),
{
    if a.len() > 0 {
        lemma_path_order(a.skip(1), b.skip(1), c.skip(1));
        lemma_component_order(a[0], b[0], c[0]);
        if b.len() > 0 && a[0] == b[0] && a.skip(1) == b.skip(1) {
            assert(a =~= seq![a[0]] + a.skip(1));
            assert(b =~= seq![b[0]] + b.skip(1));
        }
    } else if b.len() == 0 {
        assert(a =~= b);
    }
}

fn text_before(a: &[char], b: &[char]) -> (r: bool)
    ensures
        r == text_lt(a@, b@),
{
    let mut i: usize = 0;
    assert(a@.skip(0) =~= a@ && b@.skip(0) =~= b@);
    while i < a.len() && i < b.len()
        invariant
            i <= a@.len(),
            i <= b@.len(),
            text_lt(a@, b@) == text_lt(a@.skip(i as int), b@.skip(i as int)),
        decreases a@.len() - i,
    {
        assert(a@.skip(i as int)[0] == a@[i as int]);
        assert(b@.skip(i as int)[0] == b@[i as int]);
        if a[i] != b[i] {
            return a[i] < b[i];
        }
        assert(a@.skip(i as int).skip(1) =~= a@.skip(i + 1));
        assert(b@.skip(i as int).skip(1) =~= b@.skip(i + 1));
        i += 1;
    }
    i < b.len()
}

fn part_rank(p: &PathPart) -> (r: u8)
    ensures
        r == component_rank(p@),
{
    match p {
        PathPart::RootDir => 0,
        PathPart::CurDir => 1,
        PathPart::ParentDir => 2,
        PathPart::Normal(_) => 3,
    }
}

fn part_before(a: &PathPart, b: &PathPart) -> (r: bool)
    ensures
        r == component_lt(a@, b@),
{
    match (a, b) {
        (PathPart::Normal(x), PathPart::Normal(y)) => text_before(x.as_slice(), y.as_slice()),
        _ => part_rank(a) < part_rank(b),
    }
}

/// Whether the path `a` stands before `b`.
pub fn parts_before(a: &Vec<PathPart>, b: &Vec<PathPart>) -> (r: bool)
    ensures
        r == path_lt(parts_view(a@), parts_view(b@)),
{
    let ghost av = parts_view(a@);
    let ghost bv = parts_view(b@);
    let mut i: usize = 0;
    assert(av.skip(0) =~= av && bv.skip(0) =~= bv);
    while i < a.len() && i < b.len()
        invariant
            av == parts_view(a@),
            bv == parts_view(b@),
            i <= a@.len(),
            i <= b@.len(),
            path_lt(av, bv) == path_lt(av.skip(i as int), bv.skip(i as int)),
        decreases a@.len() - i,
    {
        assert(av.skip(i as int)[0] == a@[i as int]@);
        assert(bv.skip(i as int)[0] == b@[i as int]@);
        if !same_part(&a[i], &b[i]) {
            return part_before(&a[i], &b[i]);
        }
        assert(av.skip(i as int).skip(1) =~= av.skip(i + 1));
        assert(bv.skip(i as int).skip(1) =~= bv.skip(i + 1));
        proof {
            lemma_component_order(a@[i as int]@, a@[i as int]@, a@[i as int]@);
        }
        i += 1;
    }
    i < b.len()
}

/// Whether two paths have the same components.
pub fn same_path(a: &str, b: &str) -> (r: bool)
    ensures
        r == (components(a@) == components(b@)),
{
    let xs = path_parts(to_chars(a).as_slice());
    let ys = path_parts(to_chars(b).as_slice());
    assert(components(a@).len() == xs@.len() && components(b@).len() == ys@.len());
    if xs.len() != ys.len() {
        return false;
    }
    let mut i: usize = 0;
    while i < xs.len()
        invariant
            i <= xs@.len(),
            xs@.len() == ys@.len(),
            parts_view(xs@) == components(a@),
            parts_view(ys@) == components(b@),
            forall|j: int| 0 <= j < i ==> #[trigger] xs@[j]@ == ys@[j]@,
        decreases xs@.len() - i,
    {
        if !same_part(&xs[i], &ys[i]) {
            assert(components(a@)[i as int] != components(b@)[i as int]);
            return false;
        }
        i += 1;
    }
    assert(components(a@) =~= components(b@));
    true
}

} // verus!
