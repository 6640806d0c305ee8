//! What paths mean, told by the text of the path.

use vstd::prelude::*;

use crate::config;
use crate::paths;
#[allow(unused_imports)]
use crate::paths::Component;
use crate::text;

verus! {

/// Whether a text is the name of a file or of a directory: it holds no separator and is neither
/// empty nor one of the two names that every directory has.
pub open spec fn is_name(t: Seq<char>) -> bool {
    t.len() > 0 && !t.contains('/') && t != seq!['.'] && t != seq!['.', '.']
}

/// Whether the last segment of a path is a dot.
pub open spec fn ends_with_dot(t: Seq<char>) -> bool {
    t.len() > 0 && t.last() == '.' && (t.len() == 1 || t[t.len() - 2] == '/')
}

proof fn lemma_body_of_segment(t: Seq<char>)
    requires
        !t.contains('/'),
    ensures
        paths::body(t) == paths::part(t),
{
    text::lemma_find(t, '/');
    let k = text::find(t, '/');
    if k < t.len() {
        assert(t.contains(t[k]));
    }
    assert(t.take(t.len() as int) =~= t);
    if t.len() > 0 {
        assert(paths::body(paths::after_segment(t)) =~= Seq::empty());
        assert(paths::body(t) =~= paths::part(t));
    }
}

proof fn lemma_components_below(dir: Seq<char>, tail: Seq<char>)
    requires
        dir.len() > 0,
    ensures
        paths::components(dir + seq!['/'] + tail) == paths::components(dir) + paths::body(tail),
{
    let s = dir + seq!['/'] + tail;
    let lead: int = if paths::is_absolute(dir) || paths::starts_with_dot(dir) {
        1
    } else {
        0
    };
    let d = dir.skip(lead);
    assert(s[0] == dir[0]);
    if dir.len() > 1 {
        assert(s[1] == dir[1]);
    } else {
        assert(s[1] == '/');
    }
    assert(s.skip(lead) =~= d + seq!['/'] + tail);
    assert(s.skip(0) =~= s);
    assert(dir.skip(0) =~= dir);
    paths::lemma_body_split(d, tail);
    assert(paths::components(s) =~= paths::components(dir) + paths::body(tail));
}

/// A path is read from the left to the right: a name after a separator is one more component,
/// two dots are one that leads to the directory above, and one dot or nothing is none.
pub proof fn law_components_follow_the_text(dir: Seq<char>, name: Seq<char>)
    requires
        dir.len() > 0,
        is_name(name),
    ensures
        paths::components(dir + seq!['/'] + name) == paths::components(dir).push(
            Component::Normal(name),
        ),
        paths::components(dir + seq!['/'] + seq!['.', '.']) == paths::components(dir).push(
            Component::ParentDir,
        ),
        paths::components(dir + seq!['/'] + seq!['.']) == paths::components(dir),
        paths::components(dir + seq!['/']) == paths::components(dir),
        paths::components(name) == seq![Component::Normal(name)],
        paths::components(seq!['/'] + name) == seq![Component::RootDir, Component::Normal(name)],
        paths::components(seq!['/', '.', '.']) == seq![Component::RootDir, Component::ParentDir],
        paths::components(seq!['/', '.']) == seq![Component::RootDir],
        paths::components(seq!['/']) == seq![Component::RootDir],
        paths::components(seq!['.']) == seq![Component::CurDir],
        paths::components(seq!['.', '.']) == seq![Component::ParentDir],
        paths::components(Seq::empty()).len() == 0,
{
    let none = Seq::<char>::empty();
    let dot = seq!['.'];
    let dots = seq!['.', '.'];
    assert(!dot.contains('/'));
    assert(!dots.contains('/'));
    assert(dots.len() != dot.len());
    lemma_body_of_segment(name);
    lemma_body_of_segment(dot);
    lemma_body_of_segment(dots);
    lemma_components_below(dir, name);
    lemma_components_below(dir, dots);
    lemma_components_below(dir, dot);
    lemma_components_below(dir, none);
    assert(dir + seq!['/'] + none =~= dir + seq!['/']);
    assert(paths::components(dir + seq!['/'] + name) =~= paths::components(dir).push(
        Component::Normal(name),
    ));
    assert(paths::components(dir + seq!['/'] + dots) =~= paths::components(dir).push(
        Component::ParentDir,
    ));
    assert(paths::components(dir + seq!['/'] + dot) =~= paths::components(dir));
    assert(paths::components(dir + seq!['/']) =~= paths::components(dir));
    assert(name.contains(name[0]));
    if paths::starts_with_dot(name) {
        if name.len() == 1 {
            assert(name =~= dot);
        } else {
            assert(name.contains(name[1]));
        }
    }
    assert(paths::components(name) =~= seq![Component::Normal(name)]);
    assert((seq!['/'] + name).skip(1) =~= name);
    assert(paths::components(seq!['/'] + name) =~= seq![
        Component::RootDir,
        Component::Normal(name),
    ]);
    assert(seq!['/', '.', '.'].skip(1) =~= dots);
    assert(paths::components(seq!['/', '.', '.']) =~= seq![
        Component::RootDir,
        Component::ParentDir,
    ]);
    assert(seq!['/', '.'].skip(1) =~= dot);
    assert(paths::components(seq!['/', '.']) =~= seq![Component::RootDir]);
    assert(seq!['/'].skip(1) =~= none);
    assert(dot.skip(1) =~= none);
    assert(paths::body(none) =~= Seq::empty());
    assert(paths::components(seq!['/']) =~= seq![Component::RootDir]);
    assert(paths::components(dot) =~= seq![Component::CurDir]);
    assert(paths::components(dots) =~= seq![Component::ParentDir]);
}

proof fn lemma_rfind(s: Seq<char>, c: char)
    ensures
        -1 <= paths::rfind(s, c) < s.len(),
        paths::rfind(s, c) >= 0 ==> s[paths::rfind(s, c)] == c,
        forall|i: int| paths::rfind(s, c) < i < s.len() ==> #[trigger] s[i] != c,
    decreases s.len(),
{
    if s.len() > 0 && s.last() != c {
        lemma_rfind(s.drop_last(), c);
        let k = paths::rfind(s.drop_last(), c);
        assert forall|i: int| k < i < s.len() implies #[trigger] s[i] != c by {
            if i < s.len() - 1 {
                assert(s[i] == s.drop_last()[i]);
            }
        }
    }
}

/// The extension of a file is what follows the last dot of its name, unless nothing comes before
/// that dot. It does not matter in which directory the file is, nor whether separators follow.
pub proof fn law_extensions(dir: Seq<char>, stem: Seq<char>, ext: Seq<char>)
    requires
        dir.len() > 0,
        stem.len() > 0,
        !ext.contains('.'),
        is_name(stem + seq!['.'] + ext),
    ensures
        paths::extension(stem + seq!['.'] + ext) == Some(ext),
        paths::extension(dir + seq!['/'] + (stem + seq!['.'] + ext)) == Some(ext),
        paths::extension(dir + seq!['/']) == paths::extension(dir),
{
    let name = stem + seq!['.'] + ext;
    law_components_follow_the_text(dir, name);
    lemma_rfind(name, '.');
    let k = paths::rfind(name, '.');
    assert(name[stem.len() as int] == '.');
    if k > stem.len() {
        assert(name[k] == ext[k - stem.len() - 1]);
        assert(ext.contains(ext[k - stem.len() - 1]));
    }
    assert(name.skip(k + 1) =~= ext);
    assert(paths::components(dir).push(Component::Normal(name)).last() == Component::Normal(name));
}

/// The extension depends on the components of a path alone, and only a name has one.
pub proof fn law_extensions_are_of_names(a: Seq<char>, b: Seq<char>)
    ensures
        paths::components(a) == paths::components(b) ==> paths::extension(a) == paths::extension(b),
        paths::extension(a) is Some ==> paths::components(a).len() > 0 && paths::components(
            a,
        ).last() is Normal,
{
}

/// A name without a dot, or with one at its beginning only, has no extension.
pub proof fn law_names_without_extension(dir: Seq<char>, name: Seq<char>)
    requires
        dir.len() > 0,
        is_name(name),
        !name.skip(1).contains('.'),
    ensures
        paths::extension(name) is None,
        paths::extension(dir + seq!['/'] + name) is None,
{
    law_components_follow_the_text(dir, name);
    lemma_rfind(name, '.');
    let k = paths::rfind(name, '.');
    if k > 0 {
        assert(name.skip(1)[k - 1] == '.');
    }
    assert(paths::components(dir).push(Component::Normal(name)).last() == Component::Normal(name));
}

// ---------------------------------------------------------------------------
// Where settings lead
// ---------------------------------------------------------------------------

proof fn lemma_rendered_end(cs: Seq<Component>)
    requires
        paths::is_path(cs),
        cs.len() > 0,
        cs[0] == Component::RootDir,
    ensures
        cs.len() == 1 ==> paths::rendered(cs) == seq!['/'],
        cs.len() > 1 ==> paths::rendered(cs).len() > 1 && paths::rendered(cs).last() != '/',
{
    let d = cs.drop_last();
    let last = cs[cs.len() - 1];
    assert(cs.last() == last);
    if cs.len() == 1 {
        assert(paths::rendered(d) =~= Seq::<char>::empty());
    } else {
        assert(paths::is_segment(last));
        let t = paths::component_text(last);
        assert(t.len() > 0 && t.last() != '/') by {
            if let Component::Normal(name) = last {
                if name.len() > 0 {
                    assert(name.contains(name.last()));
                } else {
                    assert(paths::part(name).len() == 0);
                }
            }
        }
        assert(!paths::is_absolute(t)) by {
            if let Component::Normal(name) = last {
                assert(name.contains(name[0]));
            }
        }
        assert forall|i: int| 0 <= i < d.len() implies paths::is_segment(#[trigger] d[i]) || (i
            == 0 && d[i] == Component::RootDir) by {
            assert(d[i] == cs[i]);
        }
        paths::lemma_components_rendered(d);
        let b = paths::rendered(d);
        assert(b.len() > 0);
        assert(paths::rendered(cs) == paths::joined(b, t));
        assert(paths::rendered(cs).last() == t.last());
    }
}

/// In the normal form a name is one more component, a dot is none, and two dots take away the
/// component before them, unless that is the root or there is none.
pub proof fn law_normal_form(cs: Seq<Component>, name: Seq<char>)
    ensures
        ({
            let ns = paths::normalized(cs);
            &&& paths::normalized(Seq::empty()).len() == 0
            &&& paths::normalized(cs.push(Component::Normal(name))) == ns.push(
                Component::Normal(name),
            )
            &&& paths::normalized(cs.push(Component::RootDir)) == ns.push(Component::RootDir)
            &&& paths::normalized(cs.push(Component::CurDir)) == ns
            &&& ns.len() > 0 && ns.last() != Component::RootDir ==> paths::normalized(
                cs.push(Component::ParentDir),
            ) == ns.take(ns.len() - 1)
            &&& ns.len() == 0 || ns.last() == Component::RootDir ==> paths::normalized(
                cs.push(Component::ParentDir),
            ) == ns.push(Component::ParentDir)
        }),
{
    let ns = paths::normalized(cs);
    assert(cs.push(Component::Normal(name)).drop_last() =~= cs);
    assert(cs.push(Component::RootDir).drop_last() =~= cs);
    assert(cs.push(Component::CurDir).drop_last() =~= cs);
    assert(cs.push(Component::ParentDir).drop_last() =~= cs);
    if ns.len() > 0 {
        assert(ns.drop_last() =~= ns.take(ns.len() - 1));
    }
}

/// A setting that starts at the root stands alone. Any other comes after the workspace and a
/// separator. What it resolves to has the components of that in normal form.
pub proof fn law_resolved_components(workspace: Seq<char>, value: Seq<char>)
    ensures
        paths::components(paths::resolved(workspace, value)) == paths::normalized(
            paths::components(
                if value.len() > 0 && value[0] == '/' || workspace.len() == 0 {
                    value
                } else if workspace.last() == '/' {
                    workspace + value
                } else {
                    workspace + seq!['/'] + value
                },
            ),
        ),
{
    let j = paths::joined(workspace, value);
    let cs = paths::components(j);
    paths::lemma_components_shape(j);
    paths::lemma_normalized_is_path(cs);
    paths::lemma_components_rendered(paths::normalized(cs));
}

/// Two dots lead to the directory above, of which what was resolved is one name below; above the
/// root they stay.
pub proof fn law_two_dots_lead_up(workspace: Seq<char>, value: Seq<char>)
    requires
        paths::is_absolute(workspace),
        value.len() > 0,
    ensures
        ({
            let at = paths::resolved(workspace, value);
            let up = paths::resolved(workspace, value + seq!['/', '.', '.']);
            &&& at == seq!['/'] ==> up == seq!['/', '.', '.']
            &&& at != seq!['/'] ==> exists|name: Seq<char>|
                name.len() > 0 && !name.contains('/') && at == if up == seq!['/'] {
                    up + name
                } else {
                    #[trigger] (up + seq!['/'] + name)
                }
        }),
{
    let j = paths::joined(workspace, value);
    let at = paths::resolved(workspace, value);
    let up = paths::resolved(workspace, value + seq!['/', '.', '.']);
    let cs = paths::components(j);
    let ns = paths::normalized(cs);
    let dots = seq!['.', '.'];
    assert(paths::joined(workspace, value + seq!['/', '.', '.']) =~= j + seq!['/'] + dots);
    let a = seq!['a'];
    assert(is_name(a)) by {
        assert(a[0] == 'a' && a.len() == 1);
        assert(a != seq!['.']) by {
            assert(seq!['.'][0] == '.');
        }
    }
    law_components_follow_the_text(j, a);
    law_normal_form(cs, a);
    assert(paths::is_absolute(j));
    paths::lemma_components_shape(j);
    paths::lemma_normalized_is_path(cs);
    lemma_rendered_end(ns);
    if ns.len() == 1 {
        assert(ns.last() == ns[0]);
        let more = ns.push(Component::ParentDir);
        assert(more.drop_last() =~= ns);
        assert(more.last() == Component::ParentDir);
        assert(paths::rendered(more) =~= seq!['/', '.', '.']);
    } else {
        let last = ns[ns.len() - 1];
        assert(paths::is_segment(last));
        let d = ns.drop_last();
        assert(d =~= ns.take(ns.len() - 1));
        assert forall|i: int| 0 <= i < d.len() implies paths::is_segment(#[trigger] d[i]) || (i
            == 0 && d[i] == Component::RootDir) by {
            assert(d[i] == ns[i]);
        }
        assert(d[0] == ns[0]);
        paths::lemma_components_rendered(d);
        lemma_rendered_end(d);
        let name = paths::component_text(last);
        assert(name.len() > 0 && !name.contains('/')) by {
            if let Component::Normal(n) = last {
                if n.len() == 0 {
                    assert(paths::part(n).len() == 0);
                }
            }
        }
        assert(name.contains(name[0]));
        assert(at == paths::joined(up, name));
        assert(at.len() > 1 && at != seq!['/']);
        let below = up + seq!['/'] + name;
        assert(up == seq!['/'] || at == below);
    }
}

/// What a setting resolves to in an absolute workspace follows its text: a name leads down, two
/// dots after a name lead back, one dot and a separator at the end lead nowhere. Only the root
/// ends with a separator.
pub proof fn law_resolving_follows_the_text(
    workspace: Seq<char>,
    value: Seq<char>,
    name: Seq<char>,
)
    requires
        paths::is_absolute(workspace),
        value.len() > 0,
        is_name(name),
    ensures
        ({
            let at = paths::resolved(workspace, value);
            let below = value + seq!['/'] + name;
            &&& paths::resolved(workspace, below) == if at == seq!['/'] {
                at + name
            } else {
                at + seq!['/'] + name
            }
            &&& paths::resolved(workspace, below + seq!['/'] + seq!['.', '.']) == at
            &&& paths::resolved(workspace, value + seq!['/'] + seq!['.']) == at
            &&& paths::resolved(workspace, value + seq!['/']) == at
            &&& at == seq!['/'] || at.last() != '/'
        }),
{
    let j = paths::joined(workspace, value);
    let at = paths::resolved(workspace, value);
    let below = value + seq!['/'] + name;
    let dot = seq!['.'];
    let dots = seq!['.', '.'];
    assert(paths::joined(workspace, below) =~= j + seq!['/'] + name);
    assert(paths::joined(workspace, below + seq!['/'] + dots) =~= j + seq!['/'] + name + seq!['/']
        + dots);
    assert(paths::joined(workspace, value + seq!['/'] + dot) =~= j + seq!['/'] + dot);
    assert(paths::joined(workspace, value + seq!['/']) =~= j + seq!['/']);
    law_components_follow_the_text(j, name);
    law_components_follow_the_text(j + seq!['/'] + name, name);
    let cs = paths::components(j);
    let ns = paths::normalized(cs);
    let more = cs.push(Component::Normal(name));
    assert(more.drop_last() =~= cs);
    assert(more.last() == Component::Normal(name));
    let deep = ns.push(Component::Normal(name));
    assert(paths::normalized(more) == deep);
    let back = more.push(Component::ParentDir);
    assert(back.drop_last() =~= more);
    assert(back.last() == Component::ParentDir);
    assert(deep.last() == Component::Normal(name));
    assert(deep.drop_last() =~= ns);
    assert(paths::normalized(back) == ns);
    // the text
    assert(paths::is_absolute(j));
    paths::lemma_components_shape(j);
    paths::lemma_normalized_is_path(cs);
    paths::lemma_components_rendered(ns);
    lemma_rendered_end(ns);
    assert(name.contains(name[0]));
    assert(paths::rendered(deep) == paths::joined(at, name));
}

/// A setting that starts at the root does not depend on the workspace. Any other lies below the
/// workspace, and a dot at its beginning says no more than that.
pub proof fn law_settings_lie_in_the_workspace(
    workspace: Seq<char>,
    other: Seq<char>,
    value: Seq<char>,
)
    requires
        paths::is_absolute(workspace),
        paths::is_absolute(other),
    ensures
        paths::is_absolute(value) ==> paths::resolved(workspace, value) == paths::resolved(
            other,
            value,
        ),
        !paths::is_absolute(value) ==> paths::resolved(workspace, value) == paths::resolved(
            other,
            workspace + seq!['/'] + value,
        ),
        paths::resolved(workspace, seq!['.']) == paths::resolved(other, workspace),
        paths::resolved(workspace, Seq::empty()) == paths::resolved(other, workspace),
        paths::resolved(workspace, seq!['/']) == seq!['/'],
{
    paths::law_dot_is_workspace(workspace);
    let below = workspace + seq!['/'] + value;
    assert(paths::joined(other, below) == below);
    if !paths::is_absolute(value) {
        lemma_components_below(workspace, value);
        paths::lemma_components_joined(workspace, value);
    }
    let root = seq![Component::RootDir];
    law_components_follow_the_text(workspace, seq!['a']);
    assert(root.drop_last() =~= Seq::empty());
    assert(root.last() == Component::RootDir);
    assert(paths::normalized(root.drop_last()) =~= Seq::empty());
    assert(paths::normalized(root) =~= root);
    assert(paths::rendered(root.drop_last()) =~= Seq::<char>::empty());
    assert(paths::rendered(root) =~= seq!['/']);
}

/// Two settings are held for the same place exactly if what they resolve to differs in nothing
/// but the separators.
pub proof fn law_keys_of_places(workspace: Seq<char>, a: Seq<char>, b: Seq<char>)
    ensures
        paths::path_key(workspace, a) == paths::path_key(workspace, b) <==> {
            let x = paths::resolved(workspace, a);
            let y = paths::resolved(workspace, b);
            &&& x.len() == y.len()
            &&& forall|i: int|
                0 <= i < x.len() ==> (#[trigger] x[i] == y[i] || ((x[i] == '/' || x[i] == '\\') && (
                y[i] == '/' || y[i] == '\\')))
        },
{
    let x = paths::resolved(workspace, a);
    let y = paths::resolved(workspace, b);
    let kx = paths::path_key(workspace, a);
    let ky = paths::path_key(workspace, b);
    if x.len() == y.len() && (forall|i: int|
        0 <= i < x.len() ==> (#[trigger] x[i] == y[i] || ((x[i] == '/' || x[i] == '\\') && (y[i]
            == '/' || y[i] == '\\')))) {
        assert forall|i: int| 0 <= i < kx.len() implies kx[i] == ky[i] by {
            text::law_replacing(x, '\\', '/', i);
            text::law_replacing(y, '\\', '/', i);
            assert(x[i] == x[i]);
        }
        assert(kx =~= ky);
    }
    if kx == ky {
        assert forall|i: int| 0 <= i < x.len() implies (#[trigger] x[i] == y[i] || ((x[i] == '/'
            || x[i] == '\\') && (y[i] == '/' || y[i] == '\\'))) by {
            text::law_replacing(x, '\\', '/', i);
            text::law_replacing(y, '\\', '/', i);
        }
    }
}

// ---------------------------------------------------------------------------
// Order
// ---------------------------------------------------------------------------

/// Of two texts the first character in which they differ decides, by its code point; a text
/// stands before every longer one that begins with it.
pub proof fn law_order_of_texts(
    start: Seq<char>,
    a: char,
    x: Seq<char>,
    b: char,
    y: Seq<char>,
)
    requires
        a as u32 != b as u32,
    ensures
        paths::text_lt(start + seq![a] + x, start + seq![b] + y) == ((a as u32) < (b as u32)),
        paths::text_lt(start, start + seq![a] + x),
        !paths::text_lt(start + seq![a] + x, start),
    decreases start.len(),
{
    let p = start + seq![a] + x;
    let q = start + seq![b] + y;
    if start.len() > 0 {
        law_order_of_texts(start.skip(1), a, x, b, y);
        assert(p.skip(1) =~= start.skip(1) + seq![a] + x);
        assert(q.skip(1) =~= start.skip(1) + seq![b] + y);
        assert(p[0] == start[0] && q[0] == start[0]);
    } else {
        assert(p[0] == a && q[0] == b);
    }
}

/// Of two paths the first component in which they differ decides; a directory stands before what
/// lies in it. Names stand in the order of their texts, after the root and the dots.
pub proof fn law_order_of_paths(
    start: Seq<Component>,
    a: Component,
    x: Seq<Component>,
    b: Component,
    y: Seq<Component>,
)
    requires
        a != b,
    ensures
        paths::path_lt(start, start + seq![a] + x),
        !paths::path_lt(start + seq![a] + x, start),
        match (a, b) {
            (Component::Normal(s), Component::Normal(t)) => paths::path_lt(
                start + seq![a] + x,
                start + seq![b] + y,
            ) == paths::text_lt(s, t),
            (Component::RootDir, _) => paths::path_lt(start + seq![a] + x, start + seq![b] + y),
            (_, Component::Normal(_)) => paths::path_lt(
                start + seq![a] + x,
                start + seq![b] + y,
            ),
            (Component::CurDir, Component::ParentDir) => paths::path_lt(
                start + seq![a] + x,
                start + seq![b] + y,
            ),
            (_, _) => !paths::path_lt(start + seq![a] + x, start + seq![b] + y),
        },
    decreases start.len(),
{
    let p = start + seq![a] + x;
    let q = start + seq![b] + y;
    if start.len() > 0 {
        law_order_of_paths(start.skip(1), a, x, b, y);
        assert(p.skip(1) =~= start.skip(1) + seq![a] + x);
        assert(q.skip(1) =~= start.skip(1) + seq![b] + y);
        assert(p[0] == start[0] && q[0] == start[0]);
        let none = Seq::<Component>::empty();
        paths::lemma_path_order(seq![start[0]], none, none);
        assert(seq![start[0]].skip(1) =~= none);
        assert(!paths::component_lt(start[0], start[0]));
    } else {
        assert(p[0] == a && q[0] == b);
    }
}

// ---------------------------------------------------------------------------
// The directory that holds a path
// ---------------------------------------------------------------------------

proof fn lemma_segment_off(s: Seq<char>, name: Seq<char>, keep: nat)
    requires
        !name.contains('/'),
        keep <= s.len(),
        s.len() > 0 && s.last() == '/' || s.len() == keep,
    ensures
        paths::segment_dropped(s + name, keep) == s,
    decreases name.len(),
{
    let all = s + name;
    if name.len() > 0 {
        assert(name.contains(name.last()));
        assert(all.last() == name.last());
        let d = name.drop_last();
        assert(!d.contains('/')) by {
            if d.contains('/') {
                let i = choose|i: int| 0 <= i < d.len() && d[i] == '/';
                assert(name[i] == '/');
            }
        }
        lemma_segment_off(s, d, keep);
        assert(all.drop_last() =~= s + d);
    } else {
        assert(all =~= s);
    }
}

/// A file lies in the directory whose path comes before the last separator, in the root where
/// nothing comes before it, and in the place where the process runs where there is none.
pub proof fn law_files_lie_in_directories(dir: Seq<char>, name: Seq<char>)
    requires
        dir.len() > 0,
        dir.last() != '/',
        !ends_with_dot(dir),
        is_name(name),
    ensures
        paths::parent_text(dir + seq!['/'] + name) == Some(dir),
        paths::parent_text(seq!['/'] + name) == Some(seq!['/']),
        paths::parent_text(name) == Some(Seq::<char>::empty()),
        paths::parent_text(seq!['/']) is None,
        paths::parent_text(Seq::empty()) is None,
        config::holding_dir(dir + seq!['/'] + name) == Some(dir),
        config::holding_dir(seq!['/'] + name) == Some(seq!['/']),
        config::holding_dir(name) is None,
{
    let none = Seq::<char>::empty();
    let slash = seq!['/'];
    assert(name.contains(name[0]));
    assert(name.contains(name.last()));
    if name.len() == 1 {
        assert(name.last() == '.' ==> name =~= seq!['.']);
    } else {
        assert(name.contains(name[name.len() - 2]));
        assert(name.contains(name[1]));
    }
    // in a directory
    let s = dir + slash + name;
    let keep = paths::lead_len(s);
    assert(s[0] == dir[0]);
    if dir.len() > 1 {
        assert(s[1] == dir[1]);
    }
    assert(s.last() == name.last());
    assert(s[s.len() - 2] == if name.len() > 1 {
        name[name.len() - 2]
    } else {
        '/'
    });
    assert(paths::tail_trimmed(s, keep) == s);
    lemma_segment_off(dir + slash, name, keep);
    assert((dir + slash).drop_last() =~= dir);
    assert((dir + slash).last() == '/');
    assert(paths::tail_trimmed(dir, keep) == dir);
    assert(paths::tail_trimmed(dir + slash, keep) == dir);
    // in the root
    let r = slash + name;
    assert(paths::lead_len(r) == 1);
    assert(r.last() == name.last());
    assert(name.len() > 1 ==> r[r.len() - 2] == name[name.len() - 2]);
    assert(paths::tail_trimmed(r, 1) == r);
    lemma_segment_off(slash, name, 1);
    // here
    assert(paths::lead_len(name) == 0) by {
        if paths::starts_with_dot(name) && name.len() == 1 {
            assert(name =~= seq!['.']);
        }
    }
    assert(paths::tail_trimmed(name, 0) == name);
    assert(none + name =~= name);
    lemma_segment_off(none, name, 0);
}

proof fn lemma_tail_trimmed_prefix(s: Seq<char>, keep: nat)
    requires
        keep <= s.len(),
    ensures
        keep <= paths::tail_trimmed(s, keep).len() <= s.len(),
        paths::tail_trimmed(s, keep) == s.take(paths::tail_trimmed(s, keep).len() as int),
        paths::tail_trimmed(s, keep).len() > keep ==> paths::tail_trimmed(s, keep).last() != '/',
    decreases s.len(),
{
    let t = paths::tail_trimmed(s, keep);
    if s.len() > keep && t == paths::tail_trimmed(s.drop_last(), keep) {
        lemma_tail_trimmed_prefix(s.drop_last(), keep);
        assert(s.drop_last().take(t.len() as int) =~= s.take(t.len() as int));
    } else {
        assert(s.take(s.len() as int) =~= s);
    }
}

proof fn lemma_segment_dropped_prefix(s: Seq<char>, keep: nat)
    requires
        keep <= s.len(),
    ensures
        keep <= paths::segment_dropped(s, keep).len() <= s.len(),
        paths::segment_dropped(s, keep) == s.take(paths::segment_dropped(s, keep).len() as int),
    decreases s.len(),
{
    let t = paths::segment_dropped(s, keep);
    if t != s {
        lemma_segment_dropped_prefix(s.drop_last(), keep);
        assert(s.drop_last().take(t.len() as int) =~= s.take(t.len() as int));
    } else {
        assert(s.take(s.len() as int) =~= s);
    }
}

/// The text of the directory that holds a path is the beginning of the text of the path. Only
/// that of the root ends with a separator.
pub proof fn law_parents_are_beginnings(path: Seq<char>)
    ensures
        paths::parent_text(path) matches Some(p) ==> {
            &&& p.len() < path.len()
            &&& p == path.take(p.len() as int)
            &&& p.len() > 0 && p.last() == '/' ==> p == seq!['/']
        },
{
    let keep = paths::lead_len(path);
    let t = paths::tail_trimmed(path, keep);
    lemma_tail_trimmed_prefix(path, keep);
    if t.len() > keep {
        let u = paths::segment_dropped(t, keep);
        lemma_segment_dropped_prefix(t, keep);
        assert(u.len() < t.len()) by {
            assert(t.last() != '/');
            lemma_segment_dropped_prefix(t.drop_last(), keep);
        }
        let p = paths::tail_trimmed(u, keep);
        lemma_tail_trimmed_prefix(u, keep);
        assert(p =~= path.take(p.len() as int));
        if p.len() > 0 && p.last() == '/' {
            assert(p.len() == 1);
            assert(p =~= seq!['/']);
        }
    } else if paths::starts_with_dot(path) {
        assert(path.take(0) =~= Seq::<char>::empty());
    }
}

proof fn lemma_body_from_split(a: Seq<char>, b: Seq<char>)
    requires
        b.len() > 0,
        b[0] != '/',
        !paths::starts_with_dot(b),
    ensures
        paths::body_from(a + seq!['/'] + b, paths::body(a).len()) == b,
        paths::body_from(b, 0) == b,
    decreases a.len(),
{
    let s = a + seq!['/'] + b;
    text::lemma_find(b, '/');
    let seg = b.take(text::find(b, '/'));
    assert(text::find(b, '/') > 0);
    assert(seg[0] == b[0]);
    assert(paths::part(seg).len() > 0) by {
        if seg == seq!['.'] {
            assert(seg.len() == 1);
        }
    }
    assert(paths::body_from(b, 0) == b);
    text::lemma_find(a, '/');
    let k = text::find(a, '/');
    if a.len() == 0 {
        text::lemma_find_at(s, '/', 0);
        assert(s.take(0) =~= Seq::<char>::empty());
        assert(paths::after_segment(s) =~= b);
    } else {
        assert forall|i: int| 0 <= i < k implies #[trigger] s[i] != '/' by {
            assert(s[i] == a[i]);
        }
        if k < a.len() {
            assert(s[k] == a[k]);
        } else {
            assert(s[k] == '/');
        }
        text::lemma_find_at(s, '/', k);
        assert(s.take(k) =~= a.take(k));
        if k < a.len() {
            let a2 = a.skip(k + 1);
            lemma_body_from_split(a2, b);
            assert(paths::after_segment(s) =~= a2 + seq!['/'] + b);
        } else {
            assert(paths::after_segment(s) =~= b);
            assert(paths::after_segment(a) =~= Seq::<char>::empty());
            assert(paths::body(paths::after_segment(a)).len() == 0);
        }
    }
}

/// What is left of a path below a directory is what comes after the path of the directory. A
/// path that does not go through all components of the directory does not lie in it.
pub proof fn law_relative_paths(base: Seq<char>, rest: Seq<char>, path: Seq<char>)
    requires
        paths::is_absolute(base),
        rest.len() > 0,
        rest[0] != '/',
        !paths::starts_with_dot(rest),
        rest.last() != '/',
        !ends_with_dot(rest),
    ensures
        paths::relative_to(base, base + seq!['/'] + rest) == Some(rest),
        paths::relative_to(base, base) == Some(Seq::<char>::empty()),
        paths::relative_to(base, path) is Some <==> exists|more: Seq<Component>|
            paths::components(path) == #[trigger] (paths::components(base) + more),
{
    let s = base + seq!['/'] + rest;
    let b = paths::components(base);
    let c = paths::components(s);
    lemma_components_below(base, rest);
    assert(c.take(b.len() as int) =~= b);
    assert(s[0] == '/');
    let inner = base.skip(1);
    assert(s.skip(1) =~= inner + seq!['/'] + rest);
    assert(b.len() == paths::body(inner).len() + 1);
    lemma_body_from_split(inner, rest);
    assert(paths::tail_trimmed(rest, 0) == rest);
    // the directory itself
    assert(b.take(b.len() as int) =~= b);
    lemma_body_from_end(inner);
    // any path
    let p = paths::components(path);
    if paths::relative_to(base, path) is Some {
        assert(p =~= b + p.skip(b.len() as int));
    }
    if exists|more: Seq<Component>| p == #[trigger] (b + more) {
        let more = choose|more: Seq<Component>| p == #[trigger] (b + more);
        assert(p.take(b.len() as int) =~= b);
    }
}

proof fn lemma_body_from_end(a: Seq<char>)
    ensures
        paths::body_from(a, paths::body(a).len()).len() == 0,
        paths::tail_trimmed(paths::body_from(a, paths::body(a).len()), 0) == Seq::<char>::empty(),
    decreases a.len(),
{
    if a.len() > 0 {
        text::lemma_find(a, '/');
        lemma_body_from_end(paths::after_segment(a));
    } else {
        assert(a =~= Seq::empty());
    }
    assert(paths::body_from(a, paths::body(a).len()) =~= Seq::empty());
}

} // verus!
