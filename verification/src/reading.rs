//! What an environment text says, line by line, and what is made of it.

use vstd::prelude::*;

use crate::config;
#[allow(unused_imports)]
use crate::config::{ConfigError, OmniIntraThreads, ProviderPolicy, RuntimeDevice, Settings};
use crate::env;
use crate::env_file;
#[allow(unused_imports)]
use crate::env_file::EnvKey;
use crate::round_trip;
use crate::text;

verus! {

// ---------------------------------------------------------------------------
// Quoting
// ---------------------------------------------------------------------------

/// Between double quotes a backslash stands before a backslash and before a double quote, the
/// letters `n`, `r` and `t` stand with one for the line feed, the carriage return and the tab,
/// and every other character stands for itself.
pub proof fn law_escapes(a: Seq<char>, c: char, b: Seq<char>)
    ensures
        env::escaped(a + seq![c] + b) == env::escaped(a) + (if c == '\\' || c == '"' {
            seq!['\\', c]
        } else if c == '\n' {
            seq!['\\', 'n']
        } else if c == '\r' {
            seq!['\\', 'r']
        } else if c == '\t' {
            seq!['\\', 't']
        } else {
            seq![c]
        }) + env::escaped(b),
        env::escaped(Seq::empty()).len() == 0,
    decreases a.len(),
{
    let all = a + seq![c] + b;
    if a.len() == 0 {
        assert(all.skip(1) =~= b);
        assert(env::escaped(all) =~= env::escaped(a) + env::escape_char(c) + env::escaped(b));
    } else {
        law_escapes(a.skip(1), c, b);
        assert(all.skip(1) =~= a.skip(1) + seq![c] + b);
        assert(env::escaped(all) =~= env::escaped(a) + env::escape_char(c) + env::escaped(b));
    }
}

/// A backslash and the character after it stand for one character: for a line feed, a carriage
/// return or a tab where it is the letter for it, else for that character itself. Text without
/// a backslash stands for itself, and so does a backslash at the very end.
pub proof fn law_escapes_are_undone(plain: Seq<char>, c: char, rest: Seq<char>)
    requires
        !plain.contains('\\'),
    ensures
        env::unescaped(plain) == plain,
        env::unescaped(plain + seq!['\\']) == plain + seq!['\\'],
        env::unescaped(plain + seq!['\\', c] + rest) == plain + seq![
            if c == 'n' {
                '\n'
            } else if c == 'r' {
                '\r'
            } else if c == 't' {
                '\t'
            } else {
                c
            },
        ] + env::unescaped(rest),
    decreases plain.len(),
{
    let end = plain + seq!['\\'];
    let all = plain + seq!['\\', c] + rest;
    if plain.len() == 0 {
        assert(env::unescaped(plain) =~= plain);
        assert(end =~= seq!['\\']);
        assert(all.skip(2) =~= rest);
        assert(env::unescaped(end) =~= plain + seq!['\\']);
        assert(env::unescaped(all) =~= plain + seq![env::unescape_char(c)] + env::unescaped(rest));
    } else {
        let tail = plain.skip(1);
        assert(plain.contains(plain[0]));
        assert(!tail.contains('\\')) by {
            if tail.contains('\\') {
                let i = choose|i: int| 0 <= i < tail.len() && tail[i] == '\\';
                assert(plain[i + 1] == '\\');
            }
        }
        law_escapes_are_undone(tail, c, rest);
        assert(end.skip(1) =~= tail + seq!['\\']);
        assert(all.skip(1) =~= tail + seq!['\\', c] + rest);
        assert(seq![plain[0]] + tail =~= plain);
        assert(env::unescaped(plain) =~= plain);
        assert(env::unescaped(end) =~= plain + seq!['\\']);
        assert(env::unescaped(all) =~= plain + seq![env::unescape_char(c)] + env::unescaped(rest));
    }
}

/// A value between double quotes is what is left of it once the escapes are undone, one between
/// single quotes is what stands between them, and any other is read as it stands.
pub proof fn law_values_are_read(v: Seq<char>)
    ensures
        env::env_value(seq!['"'] + v + seq!['"']) == env::unescaped(v),
        env::env_value(seq!['\''] + v + seq!['\'']) == v,
        v.len() < 2 || v[0] != v.last() || (v[0] != '"' && v[0] != '\'') ==> env::env_value(v)
            == v,
{
    let d = seq!['"'] + v + seq!['"'];
    let s = seq!['\''] + v + seq!['\''];
    assert(d.subrange(1, d.len() - 1) =~= v);
    assert(s.subrange(1, s.len() - 1) =~= v);
}

// ---------------------------------------------------------------------------
// Lines
// ---------------------------------------------------------------------------

/// Whether the first character of a line, white space aside, is `#`.
pub open spec fn is_comment(line: Seq<char>) -> bool {
    exists|i: int|
        0 <= i < line.len() && #[trigger] line[i] == '#' && text::all_white(line.take(i))
}

/// Whether a text has no white space at its ends.
pub open spec fn is_tight(t: Seq<char>) -> bool {
    t.len() > 0 ==> !text::is_white(t[0]) && !text::is_white(t.last())
}

proof fn lemma_trimmed_starts_at(line: Seq<char>, i: int)
    requires
        0 <= i < line.len(),
        !text::is_white(line[i]),
        text::all_white(line.take(i)),
    ensures
        text::trimmed(line).len() > 0,
        text::trimmed(line)[0] == line[i],
        forall|c: char| #[trigger] text::trimmed(line).contains(c) ==> line.contains(c),
{
    text::lemma_trimmed_nonempty(line, i);
    text::lemma_trimmed_shape(line);
    let pre = line.take(i);
    let rest = line.skip(i);
    assert(line =~= pre + rest);
    text::lemma_trim_start_of(pre, rest);
    assert(rest[0] == line[i]);
    text::lemma_trim_end_starts(rest);
}

/// A comment, a blank line and a line without `=` assign nothing.
pub proof fn law_other_lines_assign_nothing(line: Seq<char>)
    ensures
        is_comment(line) ==> env::line_key(line) is None,
        text::all_white(line) ==> env::line_key(line) is None,
        !line.contains('=') ==> env::line_key(line) is None,
{
    let t = text::trimmed(line);
    if is_comment(line) {
        let i = choose|i: int|
            0 <= i < line.len() && #[trigger] line[i] == '#' && text::all_white(line.take(i));
        lemma_trimmed_starts_at(line, i);
    }
    if text::all_white(line) {
        let none = Seq::<char>::empty();
        assert(line + none + none =~= line);
        text::law_trimming_takes_off_white_space(line, none, none);
    }
    if !line.contains('=') {
        text::lemma_trimmed_shape(line);
        assert(!t.contains('='));
        text::lemma_find(t, '=');
        let k = text::find(t, '=');
        if k < t.len() {
            assert(t.contains(t[k]));
        }
    }
}

/// The key and the value of an assignment stand on the two sides of its first `=`, white space
/// aside. The key may have `export ` before it; the value may stand in quotes.
pub proof fn law_assignments_are_read(
    pre: Seq<char>,
    key: Seq<char>,
    left: Seq<char>,
    right: Seq<char>,
    value: Seq<char>,
    post: Seq<char>,
)
    requires
        text::all_white(pre),
        text::all_white(left),
        text::all_white(right),
        text::all_white(post),
        is_tight(key),
        is_tight(value),
        key.len() > 0 ==> key[0] != '#',
        !key.contains('='),
    ensures
        ({
            let line = pre + key + left + seq!['='] + right + value + post;
            &&& env::line_key(line) == Some(
                if key.len() >= 7 && key.take(7) == "export "@ {
                    key.skip(7)
                } else {
                    key
                },
            )
            &&& env::line_value(line) == env::env_value(value)
        }),
{
    let line = pre + key + left + seq!['='] + right + value + post;
    let none = Seq::<char>::empty();
    reveal_strlit("export ");
    // the line without the white space around it
    let inner = if value.len() > 0 {
        right + value
    } else {
        none
    };
    // where nothing stands before the `=`, all of that is white space
    let (start, gap) = if key.len() > 0 {
        (pre, left)
    } else {
        (pre + left, none)
    };
    assert(text::all_white(start)) by {
        assert forall|i: int| 0 <= i < start.len() implies text::is_white(#[trigger] start[i]) by {
            if key.len() == 0 {
                if i < pre.len() {
                    assert(start[i] == pre[i]);
                } else {
                    assert(start[i] == left[i - pre.len()]);
                }
            }
        }
    }
    let mid = key + gap + seq!['='] + inner;
    let end = if value.len() > 0 {
        post
    } else {
        right + post
    };
    assert(text::all_white(end)) by {
        assert forall|i: int| 0 <= i < end.len() implies text::is_white(#[trigger] end[i]) by {
            if value.len() == 0 {
                if i < right.len() {
                    assert(end[i] == right[i]);
                } else {
                    assert(end[i] == post[i - right.len()]);
                }
            }
        }
    }
    assert(line =~= start + mid + end);
    assert(mid[0] == if key.len() > 0 {
        key[0]
    } else {
        '='
    });
    text::law_white_space('=');
    assert(!text::is_white(mid.last())) by {
        if value.len() > 0 {
            assert(mid.last() == value.last());
        } else {
            assert(mid.last() == '=');
        }
    }
    text::law_trimming_takes_off_white_space(start, mid, end);
    // its first `=`
    let k = key.len() + gap.len() as int;
    assert(mid[k] == '=');
    assert forall|i: int| 0 <= i < k implies #[trigger] mid[i] != '=' by {
        if i < key.len() {
            assert(mid[i] == key[i]);
            assert(key.contains(key[i]));
        } else {
            assert(mid[i] == gap[i - key.len()]);
            text::law_white_space(gap[i - key.len()]);
        }
    }
    text::lemma_find_at(mid, '=', k);
    assert(mid.take(k) =~= none + key + gap);
    assert(text::all_white(none));
    text::law_trimming_takes_off_white_space(none, key, gap);
    assert(mid.skip(k + 1) =~= inner);
    if value.len() > 0 {
        assert(inner =~= right + value + none);
        text::law_trimming_takes_off_white_space(right, value, none);
    } else {
        assert(inner =~= none + none + none);
        text::law_trimming_takes_off_white_space(none, none, none);
        assert(value =~= none);
    }
}

// ---------------------------------------------------------------------------
// Texts
// ---------------------------------------------------------------------------

proof fn lemma_assigned_without(a: Seq<Seq<char>>, line: Seq<char>, b: Seq<Seq<char>>)
    requires
        env::line_key(line) is None,
    ensures
        env::assigned(a + seq![line] + b) == env::assigned(a + b),
    decreases b.len(),
{
    let all = a + seq![line] + b;
    if b.len() == 0 {
        assert(all.drop_last() =~= a);
        assert(all.last() == line);
        assert(a + b =~= a);
    } else {
        lemma_assigned_without(a, line, b.drop_last());
        assert(all.drop_last() =~= a + seq![line] + b.drop_last());
        assert((a + b).drop_last() =~= a + b.drop_last());
        assert(all.last() == b.last() && (a + b).last() == b.last());
    }
}

/// The line without the carriage return at its end.
proof fn lemma_line_read(line: Seq<char>)
    requires
        !line.contains('\n'),
    ensures
        text::lines(line + seq!['\n']) == seq![text::strip_cr(line)],
        env::line_key(text::strip_cr(line)) == env::line_key(line),
        env::line_value(text::strip_cr(line)) == env::line_value(line),
{
    let none = Seq::<char>::empty();
    text::law_lines_end_at_line_feeds(line, none);
    assert(line + seq!['\n'] + none =~= line + seq!['\n']);
    assert(text::lines(line + seq!['\n']) =~= seq![text::strip_cr(line)]);
    env::lemma_line_of_stripped(line);
}

/// A text with a comment, a blank line or a line without `=` in it says the same as the text
/// without that line.
pub proof fn law_other_lines_may_be_left_out(
    before: Seq<char>,
    line: Seq<char>,
    after: Seq<char>,
)
    requires
        text::ends_line(before),
        !line.contains('\n'),
        is_comment(line) || text::all_white(line) || !line.contains('='),
    ensures
        env::env_map(before + (line + seq!['\n']) + after) == env::env_map(before + after),
{
    let l = line + seq!['\n'];
    law_other_lines_assign_nothing(line);
    lemma_line_read(line);
    assert(l.last() == '\n');
    assert(before + l + after =~= before + (l + after));
    text::law_lines_add_up(before, l + after);
    text::law_lines_add_up(l, after);
    text::law_lines_add_up(before, after);
    let a = text::lines(before);
    let b = text::lines(after);
    assert(text::lines(before + l + after) =~= a + seq![text::strip_cr(line)] + b);
    lemma_assigned_without(a, text::strip_cr(line), b);
}

/// An assignment that comes last gives its key its value, and leaves every other key alone.
pub proof fn law_later_assignments_win(before: Seq<char>, line: Seq<char>)
    requires
        text::ends_line(before),
        !line.contains('\n'),
        env::line_key(line) is Some,
    ensures
        env::env_map(before + (line + seq!['\n'])) == env::env_map(before).insert(
            env::line_key(line)->0,
            env::line_value(line),
        ),
        env::env_map(Seq::empty()) == Map::<Seq<char>, Seq<char>>::empty(),
{
    let l = line + seq!['\n'];
    lemma_line_read(line);
    text::law_lines_add_up(before, l);
    let a = text::lines(before);
    let all = a + seq![text::strip_cr(line)];
    assert(text::lines(before + l) =~= all);
    assert(all.drop_last() =~= a);
    assert(all.last() == text::strip_cr(line));
}

// ---------------------------------------------------------------------------
// Saving
// ---------------------------------------------------------------------------

/// A comment, a blank line and a line without `=` are none of the application's business, nor
/// is an assignment to a key other than the ten that it knows and the two that it once had.
pub proof fn law_foreign_lines(line: Seq<char>)
    ensures
        is_comment(line) || text::all_white(line) || !line.contains('=') ==> round_trip::is_foreign(
            line,
        ),
        env::line_key(line) matches Some(name) ==> (round_trip::is_foreign(line) <==> name
            != "DB_PATH"@ && name != "MODEL_PATH"@ && name != "OMNI_DEVICE"@ && name
            != "OMNI_PROVIDER_POLICY"@ && name != "OMNI_INTRA_THREADS"@ && name
            != "OMNI_FGCLIP_MAX_PATCHES"@ && name != "HOST"@ && name != "PORT"@ && name
            != "ASSET_DIR"@ && name != "LOG_DIR"@ && name != "MODEL_DIR"@ && name
            != "IMAGE_DIR"@),
{
    law_other_lines_assign_nothing(line);
}

proof fn lemma_foreign_kept(ls: Seq<Seq<char>>, s: Settings, i: int)
    requires
        0 <= i < ls.len(),
        round_trip::is_foreign(ls[i]),
    ensures
        env_file::kept_lines(ls, s).contains(ls[i]),
    decreases ls.len(),
{
    let d = ls.drop_last();
    let before = env_file::kept_lines(d, s);
    let after = env_file::kept_lines(ls, s);
    if i < d.len() {
        lemma_foreign_kept(d, s, i);
        assert(d[i] == ls[i]);
        let k = choose|k: int| 0 <= k < before.len() && before[k] == ls[i];
        assert(after[k] == ls[i]);
    } else {
        assert(ls.last() == ls[i]);
        assert(after[before.len() as int] == ls[i]);
    }
}

/// Saving keeps every comment, every blank line and every line without `=` as it is.
pub proof fn law_comments_are_kept(existing: Seq<char>, s: Settings, i: int)
    requires
        0 <= i < text::lines(existing).len(),
        ({
            let line = text::lines(existing)[i];
            is_comment(line) || text::all_white(line) || !line.contains('=')
        }),
    ensures
        env_file::env_lines(existing, s).contains(text::lines(existing)[i]),
        !text::lines(existing)[i].contains('\r') ==> text::lines(
            env_file::env_file(existing, s),
        ).contains(text::lines(existing)[i]),
{
    let ls = text::lines(existing);
    let header = env_file::header_lines(existing);
    let kept = env_file::kept_lines(ls, s);
    let all = env_file::env_lines(existing, s);
    law_foreign_lines(ls[i]);
    lemma_foreign_kept(ls, s, i);
    let k = choose|k: int| 0 <= k < kept.len() && kept[k] == ls[i];
    assert(all[header.len() + k] == ls[i]);
    // in the text of the file
    round_trip::lemma_env_lines(existing, s);
    assert forall|j: int| 0 <= j < all.len() implies !(#[trigger] all[j]).contains('\n') by {
        assert(!env_file::env_lines(existing, s)[j].contains('\n'));
    }
    text::lemma_lines_of_terminated(all);
    if !ls[i].contains('\r') {
        if ls[i].len() > 0 {
            assert(ls[i].contains(ls[i].last()));
        }
        let file = text::lines(env_file::env_file(existing, s));
        assert(file[header.len() + k] == ls[i]);
    }
}

/// Each setting has its line: texts stand in double quotes, numbers and `auto` do not.
pub proof fn law_lines_of_settings(s: Settings)
    ensures
        env_file::rendered_line(EnvKey::DbPath, s) == "DB_PATH"@ + seq!['=', '"'] + env::escaped(
            s.db_path,
        ) + seq!['"'],
        env_file::rendered_line(EnvKey::ModelPath, s) == "MODEL_PATH"@ + seq!['=', '"']
            + env::escaped(s.model_path) + seq!['"'],
        env_file::rendered_line(EnvKey::OmniDevice, s) == "OMNI_DEVICE"@ + seq!['=', '"']
            + env::escaped(
            match s.omni_device {
                RuntimeDevice::Auto => "auto"@,
                RuntimeDevice::Cpu => "cpu"@,
                RuntimeDevice::Gpu => "gpu"@,
            },
        ) + seq!['"'],
        env_file::rendered_line(EnvKey::OmniProviderPolicy, s) == "OMNI_PROVIDER_POLICY"@ + seq![
            '=',
            '"',
        ] + env::escaped(
            match s.omni_provider_policy {
                ProviderPolicy::Auto => "auto"@,
                ProviderPolicy::Interactive => "interactive"@,
                ProviderPolicy::Service => "service"@,
            },
        ) + seq!['"'],
        env_file::rendered_line(EnvKey::OmniIntraThreads, s) == "OMNI_INTRA_THREADS"@ + seq!['=']
            + match s.omni_intra_threads {
            OmniIntraThreads::Auto => "auto"@,
            OmniIntraThreads::Fixed(n) => text::decimal(n as nat),
        },
        env_file::rendered_line(EnvKey::OmniFgclipMaxPatches, s) == "OMNI_FGCLIP_MAX_PATCHES"@
            + seq!['='] + text::decimal(s.omni_fgclip_max_patches as nat),
        env_file::rendered_line(EnvKey::Host, s) == "HOST"@ + seq!['=', '"'] + env::escaped(s.host)
            + seq!['"'],
        env_file::rendered_line(EnvKey::Port, s) == "PORT"@ + seq!['='] + text::decimal(
            s.port as nat,
        ),
        env_file::rendered_line(EnvKey::AssetDir, s) == "ASSET_DIR"@ + seq!['=', '"']
            + env::escaped(s.asset_dir) + seq!['"'],
        env_file::rendered_line(EnvKey::LogDir, s) == "LOG_DIR"@ + seq!['=', '"'] + env::escaped(
            s.log_dir,
        ) + seq!['"'],
{
}

/// A new file is a comment and the lines of the settings, one after another.
pub proof fn law_new_file(s: Settings)
    ensures
        env_file::env_lines(Seq::empty(), s) == seq![
            "# PuppyFind local configuration"@,
            env_file::rendered_line(EnvKey::DbPath, s),
            env_file::rendered_line(EnvKey::ModelPath, s),
            env_file::rendered_line(EnvKey::OmniDevice, s),
            env_file::rendered_line(EnvKey::OmniProviderPolicy, s),
            env_file::rendered_line(EnvKey::OmniIntraThreads, s),
            env_file::rendered_line(EnvKey::OmniFgclipMaxPatches, s),
            env_file::rendered_line(EnvKey::Host, s),
            env_file::rendered_line(EnvKey::Port, s),
            env_file::rendered_line(EnvKey::AssetDir, s),
            env_file::rendered_line(EnvKey::LogDir, s),
        ],
{
    let none = Seq::<char>::empty();
    assert(none + none + none =~= none);
    text::law_trimming_takes_off_white_space(none, none, none);
    let ls = text::lines(none);
    assert(ls =~= Seq::empty());
    reveal_with_fuel(env_file::missing_lines, 12);
    assert(env_file::env_lines(none, s) =~= seq![
        "# PuppyFind local configuration"@,
        env_file::rendered_line(EnvKey::DbPath, s),
        env_file::rendered_line(EnvKey::ModelPath, s),
        env_file::rendered_line(EnvKey::OmniDevice, s),
        env_file::rendered_line(EnvKey::OmniProviderPolicy, s),
        env_file::rendered_line(EnvKey::OmniIntraThreads, s),
        env_file::rendered_line(EnvKey::OmniFgclipMaxPatches, s),
        env_file::rendered_line(EnvKey::Host, s),
        env_file::rendered_line(EnvKey::Port, s),
        env_file::rendered_line(EnvKey::AssetDir, s),
        env_file::rendered_line(EnvKey::LogDir, s),
    ]);
}

/// The lines of a file are dealt with one by one, from the first to the last: what becomes of
/// the earlier ones does not depend on the later ones, and each leaves one line or none. A line
/// of a key that the file has not assigned to before leaves the line of the setting in its
/// place, and a line of a key that files once had leaves none.
pub proof fn law_lines_keep_their_places(ls: Seq<Seq<char>>, line: Seq<char>, s: Settings)
    ensures
        ({
            let before = env_file::kept_lines(ls, s);
            let after = env_file::kept_lines(ls.push(line), s);
            &&& before.len() <= after.len() <= before.len() + 1
            &&& after.take(before.len() as int) == before
            &&& round_trip::is_foreign(line) ==> after == before.push(line)
            &&& env::line_key(line) == Some("MODEL_DIR"@) || env::line_key(line) == Some(
                "IMAGE_DIR"@,
            ) ==> after == before
            &&& forall|key: EnvKey|
                env::line_key(line) == Some(#[trigger] key.name()) ==> after == if exists|i: int|
                    0 <= i < ls.len() && env::line_key(#[trigger] ls[i]) == Some(key.name()) {
                    before
                } else {
                    before.push(env_file::rendered_line(key, s))
                }
        }),
{
    let all = ls.push(line);
    let before = env_file::kept_lines(ls, s);
    assert(all.drop_last() =~= ls);
    assert(env_file::kept_lines(all, s).take(before.len() as int) =~= before);
    assert forall|key: EnvKey| env::line_key(line) == Some(#[trigger] key.name()) implies
        env_file::key_named(key.name()) == Some(key) by {
        env_file::lemma_key_names(key);
    }
    if let Some(name) = env::line_key(line) {
        if let Some(key) = env_file::key_named(name) {
            env_file::lemma_key_names(key);
            assert(!env_file::is_legacy(name));
        }
    }
}

/// A file that holds more than white space keeps its beginning. Behind its lines come the lines
/// of the settings that it does not assign to, in the order in which a new file has them.
pub proof fn law_missing_settings_come_last(existing: Seq<char>, s: Settings, n: nat)
    requires
        n < 10,
    ensures
        ({
            let ls = text::lines(existing);
            let key = seq![
                EnvKey::DbPath,
                EnvKey::ModelPath,
                EnvKey::OmniDevice,
                EnvKey::OmniProviderPolicy,
                EnvKey::OmniIntraThreads,
                EnvKey::OmniFgclipMaxPatches,
                EnvKey::Host,
                EnvKey::Port,
                EnvKey::AssetDir,
                EnvKey::LogDir,
            ][n as int];
            let missing = env_file::missing_lines(ls, s, n);
            &&& env_file::missing_lines(ls, s, 0).len() == 0
            &&& env_file::missing_lines(ls, s, n + 1) == if exists|i: int|
                0 <= i < ls.len() && env::line_key(#[trigger] ls[i]) == Some(key.name()) {
                missing
            } else {
                missing.push(env_file::rendered_line(key, s))
            }
            &&& text::trimmed(existing).len() > 0 ==> env_file::env_lines(existing, s)
                == env_file::kept_lines(ls, s) + env_file::missing_lines(ls, s, 10)
            &&& text::trimmed(existing).len() == 0 ==> env_file::env_lines(existing, s) == seq![
                "# PuppyFind local configuration"@,
            ] + env_file::kept_lines(ls, s) + env_file::missing_lines(ls, s, 10)
        }),
{
    let ls = text::lines(existing);
    let kept = env_file::kept_lines(ls, s);
    assert(Seq::<Seq<char>>::empty() + kept =~= kept);
}

// ---------------------------------------------------------------------------
// Loading
// ---------------------------------------------------------------------------

/// The texts among the settings are the values of their keys. The model and the directory of
/// the images may have the keys that they once had; a host that is blank does not count.
pub proof fn law_texts_are_loaded(m: Map<Seq<char>, Seq<char>>, d: Settings)
    ensures
        ({
            let s = env_file::settings_from(m, d);
            &&& s.db_path == if m.contains_key("DB_PATH"@) {
                m["DB_PATH"@]
            } else {
                d.db_path
            }
            &&& s.model_path == if m.contains_key("MODEL_PATH"@) {
                m["MODEL_PATH"@]
            } else if m.contains_key("MODEL_DIR"@) {
                m["MODEL_DIR"@]
            } else {
                d.model_path
            }
            &&& s.asset_dir == if m.contains_key("ASSET_DIR"@) {
                m["ASSET_DIR"@]
            } else if m.contains_key("IMAGE_DIR"@) {
                m["IMAGE_DIR"@]
            } else {
                d.asset_dir
            }
            &&& s.log_dir == if m.contains_key("LOG_DIR"@) {
                m["LOG_DIR"@]
            } else {
                d.log_dir
            }
            &&& s.host == if m.contains_key("HOST"@) && text::trimmed(m["HOST"@]).len() > 0 {
                text::trimmed(m["HOST"@])
            } else {
                d.host
            }
        }),
{
}

/// The port is a number of sixteen bits; what is none leaves the default in place.
pub proof fn law_port_is_loaded(m: Map<Seq<char>, Seq<char>>, d: Settings)
    ensures
        ({
            let s = env_file::settings_from(m, d);
            let n = text::parsed_number(m["PORT"@], 65535);
            &&& m.contains_key("PORT"@) && n is Some ==> s.port == n->0
            &&& !m.contains_key("PORT"@) || n is None ==> s.port == d.port
        }),
{
    if let Some(n) = text::parsed_number(m["PORT"@], 65535) {
        assert(n <= 65535);
    }
}

/// The number of patches is one of the five that the model takes; anything else leaves the
/// default in place.
pub proof fn law_patches_are_loaded(m: Map<Seq<char>, Seq<char>>, d: Settings)
    ensures
        ({
            let s = env_file::settings_from(m, d);
            let n = text::parsed_number(m["OMNI_FGCLIP_MAX_PATCHES"@], usize::MAX as nat);
            let taken = m.contains_key("OMNI_FGCLIP_MAX_PATCHES"@) && n is Some && (n->0 == 128
                || n->0 == 256 || n->0 == 576 || n->0 == 784 || n->0 == 1024);
            &&& taken ==> s.omni_fgclip_max_patches == n->0
            &&& !taken ==> s.omni_fgclip_max_patches == d.omni_fgclip_max_patches
        }),
{
}

/// The number of threads is `auto` or a number other than zero; anything else leaves the default
/// in place.
pub proof fn law_threads_are_loaded(m: Map<Seq<char>, Seq<char>>, d: Settings)
    ensures
        ({
            let s = env_file::settings_from(m, d);
            let present = m.contains_key("OMNI_INTRA_THREADS"@);
            let v = m["OMNI_INTRA_THREADS"@];
            let n = text::parsed_number(v, usize::MAX as nat);
            let auto = text::lowered(text::trimmed(v)) == "auto"@;
            &&& present && auto ==> s.omni_intra_threads == OmniIntraThreads::Auto
            &&& present && !auto && n is Some && n->0 > 0 ==> s.omni_intra_threads
                == OmniIntraThreads::Fixed(n->0 as usize)
            &&& !present || (!auto && (n is None || n->0 == 0)) ==> s.omni_intra_threads
                == d.omni_intra_threads
        }),
{
}

/// The device and the policy are known by their names, in capital or small letters and with
/// white space around them; anything else leaves the default in place.
pub proof fn law_names_are_loaded(m: Map<Seq<char>, Seq<char>>, d: Settings)
    ensures
        ({
            let s = env_file::settings_from(m, d);
            let device = text::lowered(text::trimmed(m["OMNI_DEVICE"@]));
            let policy = text::lowered(text::trimmed(m["OMNI_PROVIDER_POLICY"@]));
            let has_device = m.contains_key("OMNI_DEVICE"@);
            let has_policy = m.contains_key("OMNI_PROVIDER_POLICY"@);
            &&& has_device && device == "auto"@ ==> s.omni_device == RuntimeDevice::Auto
            &&& has_device && device == "cpu"@ ==> s.omni_device == RuntimeDevice::Cpu
            &&& has_device && device == "gpu"@ ==> s.omni_device == RuntimeDevice::Gpu
            &&& !has_device || (device != "auto"@ && device != "cpu"@ && device != "gpu"@)
                ==> s.omni_device == d.omni_device
            &&& has_policy && policy == "auto"@ ==> s.omni_provider_policy == ProviderPolicy::Auto
            &&& has_policy && policy == "interactive"@ ==> s.omni_provider_policy
                == ProviderPolicy::Interactive
            &&& has_policy && policy == "service"@ ==> s.omni_provider_policy
                == ProviderPolicy::Service
            &&& !has_policy || (policy != "auto"@ && policy != "interactive"@ && policy
                != "service"@) ==> s.omni_provider_policy == d.omni_provider_policy
        }),
{
    reveal_strlit("auto");
    reveal_strlit("cpu");
    reveal_strlit("gpu");
    reveal_strlit("interactive");
    reveal_strlit("service");
    assert("cpu"@[0] != "gpu"@[0]);
    assert("auto"@.len() == 4 && "cpu"@.len() == 3 && "gpu"@.len() == 3);
    assert("interactive"@.len() == 11 && "service"@.len() == 7);
}

/// What is wrong with a number of threads: it is zero, or no number.
pub proof fn law_wrong_threads(v: Seq<char>)
    ensures
        ({
            let n = text::parsed_number(v, usize::MAX as nat);
            let auto = text::lowered(text::trimmed(v)) == "auto"@;
            let threads = config::threads_named(v);
            &&& threads is Ok <==> auto || (n is Some && n->0 > 0)
            &&& !auto && n == Some(0nat) ==> threads == Err::<OmniIntraThreads, ConfigError>(
                ConfigError::ZeroIntraThreads,
            )
            &&& !auto && n is None ==> threads == Err::<OmniIntraThreads, ConfigError>(
                ConfigError::InvalidIntraThreads,
            )
        }),
{
}

/// Whether the values lack nothing and hold nothing that is wrong or that files once had.
pub open spec fn is_in_order(m: Map<Seq<char>, Seq<char>>) -> bool {
    let device = text::lowered(text::trimmed(m["OMNI_DEVICE"@]));
    let policy = text::lowered(text::trimmed(m["OMNI_PROVIDER_POLICY"@]));
    let threads = text::parsed_number(m["OMNI_INTRA_THREADS"@], usize::MAX as nat);
    let patches = text::parsed_number(m["OMNI_FGCLIP_MAX_PATCHES"@], usize::MAX as nat);
    &&& m.contains_key("DB_PATH"@) && m.contains_key("MODEL_PATH"@) && m.contains_key(
        "OMNI_DEVICE"@,
    ) && m.contains_key("OMNI_PROVIDER_POLICY"@) && m.contains_key("OMNI_INTRA_THREADS"@)
        && m.contains_key("OMNI_FGCLIP_MAX_PATCHES"@) && m.contains_key("HOST"@)
        && m.contains_key("PORT"@) && m.contains_key("ASSET_DIR"@) && m.contains_key("LOG_DIR"@)
    &&& !m.contains_key("MODEL_DIR"@) && !m.contains_key("IMAGE_DIR"@)
    &&& text::trimmed(m["HOST"@]).len() > 0
    &&& text::parsed_number(m["PORT"@], 65535) is Some
    &&& device == "auto"@ || device == "cpu"@ || device == "gpu"@
    &&& policy == "auto"@ || policy == "interactive"@ || policy == "service"@
    &&& text::lowered(text::trimmed(m["OMNI_INTRA_THREADS"@])) == "auto"@ || (threads is Some
        && threads->0 > 0)
    &&& patches is Some && (patches->0 == 128 || patches->0 == 256 || patches->0 == 576
        || patches->0 == 784 || patches->0 == 1024)
}

/// A file is written again, with the settings that were read from it, exactly if it is missing
/// or something in it is missing, wrong, or what files once had.
pub proof fn law_files_are_mended(existing: Seq<char>, s: Settings)
    ensures
        is_in_order(env::env_map(existing)) ==> env_file::rewritten(Some(existing), s) is None,
        !is_in_order(env::env_map(existing)) ==> env_file::rewritten(Some(existing), s) == Some(
            text::terminated(env_file::env_lines(existing, s), '\n'),
        ),
        env_file::rewritten(None, s) == Some(
            text::terminated(env_file::env_lines(Seq::empty(), s), '\n'),
        ),
        env_file::existing_values(Some(existing)) == env::env_map(existing),
        env_file::existing_values(None) == Map::<Seq<char>, Seq<char>>::empty(),
{
    let m = env::env_map(existing);
    assert(m.contains_key(EnvKey::DbPath.name()) == m.contains_key("DB_PATH"@));
    assert(m.contains_key(EnvKey::ModelPath.name()) == m.contains_key("MODEL_PATH"@));
    assert(m.contains_key(EnvKey::OmniDevice.name()) == m.contains_key("OMNI_DEVICE"@));
    assert(m.contains_key(EnvKey::OmniProviderPolicy.name()) == m.contains_key(
        "OMNI_PROVIDER_POLICY"@,
    ));
    assert(m.contains_key(EnvKey::OmniIntraThreads.name()) == m.contains_key(
        "OMNI_INTRA_THREADS"@,
    ));
    assert(m.contains_key(EnvKey::OmniFgclipMaxPatches.name()) == m.contains_key(
        "OMNI_FGCLIP_MAX_PATCHES"@,
    ));
    assert(m.contains_key(EnvKey::Host.name()) == m.contains_key("HOST"@));
    assert(m.contains_key(EnvKey::Port.name()) == m.contains_key("PORT"@));
    assert(m.contains_key(EnvKey::AssetDir.name()) == m.contains_key("ASSET_DIR"@));
    assert(m.contains_key(EnvKey::LogDir.name()) == m.contains_key("LOG_DIR"@));
}

/// The defaults, of which the directory of the images is that of the user.
pub proof fn law_defaults(pictures: Option<Seq<char>>, home: Option<Seq<char>>)
    ensures
        ({
            let s = config::default_settings(config::chosen_asset_dir(pictures, home));
            &&& s.db_path == "./config/puppy_find.db"@
            &&& s.model_path == "./config/model"@
            &&& s.omni_device == RuntimeDevice::Auto
            &&& s.omni_provider_policy == ProviderPolicy::Interactive
            &&& s.omni_intra_threads == OmniIntraThreads::Auto
            &&& s.omni_fgclip_max_patches == 256
            &&& s.host == "127.0.0.1"@
            &&& s.port == 3000
            &&& s.log_dir == "./config/log"@
            &&& pictures is Some ==> s.asset_dir == pictures->0
            &&& pictures is None && home is None ==> s.asset_dir == "./images"@
            &&& pictures is None && home is Some && (home->0).len() == 0 ==> s.asset_dir
                == "Pictures"@
            &&& pictures is None && home is Some && (home->0).len() > 0 && (home->0).last() != '/'
                ==> s.asset_dir == home->0 + seq!['/'] + "Pictures"@
            &&& pictures is None && home is Some && (home->0).len() > 0 && (home->0).last() == '/'
                ==> s.asset_dir == home->0 + "Pictures"@
        }),
{
    reveal_strlit("Pictures");
}

} // verus!
