//! What is written to the environment file is what is read from it.

use vstd::prelude::*;

use crate::config;
#[allow(unused_imports)]
use crate::config::{OmniIntraThreads, Settings};
use crate::env;
use crate::env_file;
#[allow(unused_imports)]
use crate::env_file::EnvKey;
use crate::text;

verus! {

/// Whether the settings `s` can be told from what is read: the number of threads is not zero,
/// the number of patches is one that the model takes, and the host is not blank and has no
/// white space around it.
pub open spec fn is_storable(s: Settings) -> bool {
    &&& s.omni_intra_threads != OmniIntraThreads::Fixed(0)
    &&& config::is_supported_patches(s.omni_fgclip_max_patches)
    &&& s.host.len() > 0
    &&& text::trimmed(s.host) == s.host
}

// ---------------------------------------------------------------------------
// Maps of assignments
// ---------------------------------------------------------------------------

proof fn lemma_assigned(ls: Seq<Seq<char>>, name: Seq<char>, value: Seq<char>)
    requires
        forall|i: int|
            0 <= i < ls.len() && env::line_key(#[trigger] ls[i]) == Some(name) ==> env::line_value(
                ls[i],
            ) == value,
    ensures
        env::assigned(ls).contains_key(name) == env_file::mentions(ls, name),
        env_file::mentions(ls, name) ==> env::assigned(ls)[name] == value,
    decreases ls.len(),
{
    if ls.len() > 0 {
        let d = ls.drop_last();
        assert forall|i: int|
            0 <= i < d.len() && env::line_key(#[trigger] d[i]) == Some(
                name,
            ) implies env::line_value(d[i]) == value by {
            assert(d[i] == ls[i]);
        }
        lemma_assigned(d, name, value);
        let n = ls.len() - 1;
        assert(ls.last() == ls[n]);
        if env_file::mentions(d, name) {
            let j = choose|j: int|
                0 <= j < d.len() && env::line_key(#[trigger] d[j]) == Some(name);
            assert(ls[j] == d[j]);
        }
        if env_file::mentions(ls, name) && env::line_key(ls[n]) != Some(name) {
            let j = choose|j: int|
                0 <= j < ls.len() && env::line_key(#[trigger] ls[j]) == Some(name);
            assert(d[j] == ls[j]);
        }
    }
}

proof fn lemma_assigned_of_stripped(ls: Seq<Seq<char>>)
    ensures
        env::assigned(ls.map_values(|l: Seq<char>| text::strip_cr(l))) == env::assigned(ls),
    decreases ls.len(),
{
    let m = ls.map_values(|l: Seq<char>| text::strip_cr(l));
    if ls.len() > 0 {
        lemma_assigned_of_stripped(ls.drop_last());
        assert(m.drop_last() =~= ls.drop_last().map_values(|l: Seq<char>| text::strip_cr(l)));
        env::lemma_line_of_stripped(ls.last());
        assert(m.last() == text::strip_cr(ls.last()));
    }
}

// ---------------------------------------------------------------------------
// One line
// ---------------------------------------------------------------------------

proof fn lemma_index_cases(i: int, n: int)
    requires
        0 <= i < n <= 23,
    ensures
        i == 0 || i == 1 || i == 2 || i == 3 || i == 4 || i == 5 || i == 6 || i == 7 || i == 8 || i
            == 9 || i == 10 || i == 11 || i == 12 || i == 13 || i == 14 || i == 15 || i == 16 || i
            == 17 || i == 18 || i == 19 || i == 20 || i == 21 || i == 22,
{
}

proof fn lemma_key_shape(key: EnvKey)
    ensures
        key.name().len() > 0,
        'A' <= key.name()[0] <= 'Z',
        'A' <= key.name().last() <= 'Z',
        !key.name().contains('='),
        !key.name().contains('\n'),
{
    reveal_strlit("DB_PATH");
    reveal_strlit("MODEL_PATH");
    reveal_strlit("OMNI_DEVICE");
    reveal_strlit("OMNI_PROVIDER_POLICY");
    reveal_strlit("OMNI_INTRA_THREADS");
    reveal_strlit("OMNI_FGCLIP_MAX_PATCHES");
    reveal_strlit("HOST");
    reveal_strlit("PORT");
    reveal_strlit("ASSET_DIR");
    reveal_strlit("LOG_DIR");
    let n = key.name();
    assert forall|i: int| 0 <= i < n.len() implies #[trigger] n[i] != '=' && n[i] != '\n' by {
        lemma_index_cases(i, n.len() as int);
        match key {
            EnvKey::DbPath => {},
            EnvKey::ModelPath => {},
            EnvKey::OmniDevice => {},
            EnvKey::OmniProviderPolicy => {},
            EnvKey::OmniIntraThreads => {},
            EnvKey::OmniFgclipMaxPatches => {},
            EnvKey::Host => {},
            EnvKey::Port => {},
            EnvKey::AssetDir => {},
            EnvKey::LogDir => {},
        }
    }
}

/// The text after `=` in the line of a key.
spec fn written_value(key: EnvKey, s: Settings) -> Seq<char> {
    if env_file::is_bare(key) {
        env_file::plain_value(key, s)
    } else {
        env::quoted(env_file::plain_value(key, s))
    }
}

proof fn lemma_written_value(key: EnvKey, s: Settings)
    ensures
        written_value(key, s).len() > 0,
        !text::is_white(written_value(key, s)[0]),
        !text::is_white(written_value(key, s).last()),
        !written_value(key, s).contains('\n'),
        env::env_value(written_value(key, s)) == env_file::plain_value(key, s),
{
    let v = written_value(key, s);
    let p = env_file::plain_value(key, s);
    if env_file::is_bare(key) {
        reveal_strlit("auto");
        text::lemma_decimal(s.omni_fgclip_max_patches as nat);
        text::lemma_decimal(s.port as nat);
        if let OmniIntraThreads::Fixed(n) = s.omni_intra_threads {
            text::lemma_decimal(n as nat);
        }
        assert forall|i: int| 0 <= i < v.len() implies #[trigger] v[i] != '\n' by {
            if key == EnvKey::OmniIntraThreads && s.omni_intra_threads == OmniIntraThreads::Auto {
                assert(i == 0 || i == 1 || i == 2 || i == 3);
            } else {
                assert(text::is_digit(v[i]));
            }
        }
        if !(key == EnvKey::OmniIntraThreads && s.omni_intra_threads == OmniIntraThreads::Auto) {
            assert(text::is_digit(v[0]));
            assert(text::is_digit(v[v.len() - 1]));
        }
    } else {
        env::lemma_env_value_quoted(p);
        env::lemma_escaped_is_one_line(p);
        assert forall|i: int| 0 <= i < v.len() implies #[trigger] v[i] != '\n' by {
            if 0 < i < v.len() - 1 {
                assert(v[i] == env::escaped(p)[i - 1]);
                assert(env::escaped(p).contains(env::escaped(p)[i - 1]));
            }
        }
    }
}

/// The line of a key assigns the setting to the key.
proof fn lemma_rendered_line(key: EnvKey, s: Settings)
    ensures
        env::line_key(env_file::rendered_line(key, s)) == Some(key.name()),
        env::line_value(env_file::rendered_line(key, s)) == env_file::plain_value(key, s),
        !env_file::rendered_line(key, s).contains('\n'),
{
    let name = key.name();
    let v = written_value(key, s);
    let line = env_file::rendered_line(key, s);
    lemma_key_shape(key);
    lemma_written_value(key, s);
    assert(line =~= name + seq!['='] + v);
    let k = name.len() as int;
    text::lemma_trimmed_id(line);
    assert forall|i: int| 0 <= i < k implies #[trigger] line[i] != '=' by {
        assert(line[i] == name[i]);
        assert(name.contains(name[i]));
    }
    text::lemma_find_at(line, '=', k);
    assert(line.take(k) =~= name);
    assert(line.skip(k + 1) =~= v);
    text::lemma_trimmed_id(name);
    text::lemma_trimmed_id(v);
    reveal_strlit("export ");
    assert(!text::has_prefix(name, "export "@)) by {
        if text::has_prefix(name, "export "@) {
            assert(name.take("export "@.len() as int)[0] == name[0]);
        }
    }
    assert forall|i: int| 0 <= i < line.len() implies #[trigger] line[i] != '\n' by {
        if i < k {
            assert(line[i] == name[i]);
            assert(name.contains(name[i]));
        } else if i > k {
            assert(line[i] == v[i - k - 1]);
            assert(v.contains(v[i - k - 1]));
        }
    }
}

// ---------------------------------------------------------------------------
// All lines
// ---------------------------------------------------------------------------

/// Whether a line is none of the application's business: no assignment, or one to a key that
/// is neither known nor a legacy one.
pub open spec fn is_foreign(line: Seq<char>) -> bool {
    match env::line_key(line) {
        Some(name) => env_file::key_named(name) is None && !env_file::is_legacy(name),
        None => true,
    }
}

/// Whether a line is the current one of a known key.
pub open spec fn is_current(line: Seq<char>, s: Settings) -> bool {
    exists|k: EnvKey| line == #[trigger] env_file::rendered_line(k, s)
}

proof fn lemma_kept(ls: Seq<Seq<char>>, s: Settings)
    requires
        forall|i: int| 0 <= i < ls.len() ==> !(#[trigger] ls[i]).contains('\n'),
    ensures
        forall|i: int|
            #![trigger env_file::kept_lines(ls, s)[i]]
            0 <= i < env_file::kept_lines(ls, s).len() ==> {
                let line = env_file::kept_lines(ls, s)[i];
                (is_foreign(line) || is_current(line, s)) && !line.contains('\n')
            },
        forall|k: EnvKey|
            env_file::mentions(ls, #[trigger] k.name()) ==> env_file::kept_lines(ls, s).contains(
                env_file::rendered_line(k, s),
            ),
    decreases ls.len(),
{
    if ls.len() > 0 {
        let d = ls.drop_last();
        let n = ls.len() - 1;
        let line = ls[n];
        assert(ls.last() == line);
        assert forall|i: int| 0 <= i < d.len() implies !(#[trigger] d[i]).contains('\n') by {
            assert(d[i] == ls[i]);
        }
        lemma_kept(d, s);
        let before = env_file::kept_lines(d, s);
        let after = env_file::kept_lines(ls, s);
        if let Some(name) = env::line_key(line) {
            env_file::lemma_named_key(name);
            if let Some(key) = env_file::key_named(name) {
                lemma_rendered_line(key, s);
                assert(is_current(env_file::rendered_line(key, s), s));
            }
        }
        assert forall|i: int|
            #![trigger after[i]]
            0 <= i < after.len() implies (is_foreign(after[i]) || is_current(after[i], s))
            && !after[i].contains('\n') by {
            if i < before.len() {
                assert(after[i] == before[i]);
            }
        }
        assert forall|k: EnvKey| env_file::mentions(ls, #[trigger] k.name()) implies after.contains(
            env_file::rendered_line(k, s),
        ) by {
            let want = env_file::rendered_line(k, s);
            let j = choose|j: int|
                0 <= j < ls.len() && env::line_key(#[trigger] ls[j]) == Some(k.name());
            if j < n {
                assert(d[j] == ls[j]);
                assert(env_file::mentions(d, k.name()));
                let x = choose|x: int| 0 <= x < before.len() && before[x] == want;
                assert(after[x] == want);
            } else {
                env_file::lemma_key_names(k);
                if env_file::mentions(d, k.name()) {
                    let x = choose|x: int| 0 <= x < before.len() && before[x] == want;
                    assert(after[x] == want);
                } else {
                    assert(after[before.len() as int] == want);
                }
            }
        }
    }
}

proof fn lemma_missing(ls: Seq<Seq<char>>, s: Settings, n: nat)
    requires
        n <= env_file::known_keys().len(),
    ensures
        forall|i: int|
            #![trigger env_file::missing_lines(ls, s, n)[i]]
            0 <= i < env_file::missing_lines(ls, s, n).len() ==> is_current(
                env_file::missing_lines(ls, s, n)[i],
                s,
            ),
        forall|j: int|
            #![trigger env_file::known_keys()[j]]
            0 <= j < n && !env_file::mentions(ls, env_file::known_keys()[j].name())
                ==> env_file::missing_lines(ls, s, n).contains(
                env_file::rendered_line(env_file::known_keys()[j], s),
            ),
    decreases n,
{
    if n > 0 {
        lemma_missing(ls, s, (n - 1) as nat);
        let before = env_file::missing_lines(ls, s, (n - 1) as nat);
        let after = env_file::missing_lines(ls, s, n);
        let key = env_file::known_keys()[n - 1];
        assert(is_current(env_file::rendered_line(key, s), s));
        assert forall|i: int| #![trigger after[i]] 0 <= i < after.len() implies is_current(
            after[i],
            s,
        ) by {
            if i < before.len() {
                assert(after[i] == before[i]);
            }
        }
        assert forall|j: int|
            #![trigger env_file::known_keys()[j]]
            0 <= j < n && !env_file::mentions(
                ls,
                env_file::known_keys()[j].name(),
            ) implies after.contains(env_file::rendered_line(env_file::known_keys()[j], s)) by {
            let want = env_file::rendered_line(env_file::known_keys()[j], s);
            if j < n - 1 {
                let x = choose|x: int| 0 <= x < before.len() && before[x] == want;
                assert(after[x] == want);
            } else {
                assert(after[before.len() as int] == want);
            }
        }
    }
}

proof fn lemma_header_is_comment()
    ensures
        is_foreign("# PuppyFind local configuration"@),
        !"# PuppyFind local configuration"@.contains('\n'),
{
    reveal_strlit("# PuppyFind local configuration");
    let h = "# PuppyFind local configuration"@;
    text::lemma_trimmed_id(h);
    assert(env::line_key(h) is None);
    assert forall|i: int| 0 <= i < h.len() implies #[trigger] h[i] != '\n' by {
        if i < 23 {
            lemma_index_cases(i, 23);
        } else {
            assert(i == 23 || i == 24 || i == 25 || i == 26 || i == 27 || i == 28 || i == 29 || i
                == 30);
        }
    }
}

/// Every line of the file is foreign or the current one of a known key, and every known key
/// has its current line.
pub proof fn lemma_env_lines(existing: Seq<char>, s: Settings)
    ensures
        forall|i: int|
            #![trigger env_file::env_lines(existing, s)[i]]
            0 <= i < env_file::env_lines(existing, s).len() ==> {
                let line = env_file::env_lines(existing, s)[i];
                (is_foreign(line) || is_current(line, s)) && !line.contains('\n')
            },
        forall|k: EnvKey|
            env_file::env_lines(existing, s).contains(#[trigger] env_file::rendered_line(k, s)),
{
    let ls = text::lines(existing);
    let header = env_file::header_lines(existing);
    let kept = env_file::kept_lines(ls, s);
    let missing = env_file::missing_lines(ls, s, env_file::known_keys().len());
    let all = env_file::env_lines(existing, s);
    text::lemma_lines_hold_no_newline(existing);
    lemma_kept(ls, s);
    lemma_missing(ls, s, env_file::known_keys().len());
    lemma_header_is_comment();
    assert forall|i: int| #![trigger all[i]] 0 <= i < all.len() implies (is_foreign(all[i])
        || is_current(all[i], s)) && !all[i].contains('\n') by {
        if i < header.len() {
            assert(all[i] == header[i]);
        } else if i < header.len() + kept.len() {
            assert(all[i] == kept[i - header.len()]);
        } else {
            assert(all[i] == missing[i - header.len() - kept.len()]);
            let k = choose|k: EnvKey| all[i] == #[trigger] env_file::rendered_line(k, s);
            lemma_rendered_line(k, s);
        }
    }
    assert forall|k: EnvKey| all.contains(#[trigger] env_file::rendered_line(k, s)) by {
        let want = env_file::rendered_line(k, s);
        if env_file::mentions(ls, k.name()) {
            let x = choose|x: int| 0 <= x < kept.len() && kept[x] == want;
            assert(all[header.len() + x] == want);
        } else {
            let j = key_index(k);
            assert(env_file::known_keys()[j] == k);
            let x = choose|x: int| 0 <= x < missing.len() && missing[x] == want;
            assert(all[header.len() + kept.len() + x] == want);
        }
    }
}

/// The place of a key among the known keys.
spec fn key_index(k: EnvKey) -> int {
    match k {
        EnvKey::DbPath => 0,
        EnvKey::ModelPath => 1,
        EnvKey::OmniDevice => 2,
        EnvKey::OmniProviderPolicy => 3,
        EnvKey::OmniIntraThreads => 4,
        EnvKey::OmniFgclipMaxPatches => 5,
        EnvKey::Host => 6,
        EnvKey::Port => 7,
        EnvKey::AssetDir => 8,
        EnvKey::LogDir => 9,
    }
}

/// A file that was written for the settings `s` assigns to each known key its setting, and
/// nothing to a legacy key.
pub proof fn law_file_holds_settings(existing: Seq<char>, s: Settings, key: EnvKey)
    ensures
        env::env_map(env_file::env_file(existing, s)).contains_key(key.name()),
        env::env_map(env_file::env_file(existing, s))[key.name()] == env_file::plain_value(key, s),
        !env::env_map(env_file::env_file(existing, s)).contains_key("MODEL_DIR"@),
        !env::env_map(env_file::env_file(existing, s)).contains_key("IMAGE_DIR"@),
{
    let all = env_file::env_lines(existing, s);
    lemma_env_lines(existing, s);
    text::lemma_lines_of_terminated(all);
    lemma_assigned_of_stripped(all);
    let m = env::env_map(env_file::env_file(existing, s));
    assert(m == env::assigned(all));
    assert forall|i: int, name: Seq<char>|
        0 <= i < all.len() && #[trigger] env::line_key(all[i]) == Some(
            name,
        ) && !#[trigger] is_foreign_name(name) implies is_current(all[i], s) by {
        assert(is_foreign(all[i]) ==> is_foreign_name(name));
    }
    // the known key
    env_file::lemma_key_names(key);
    let value = env_file::plain_value(key, s);
    assert forall|i: int|
        0 <= i < all.len() && env::line_key(#[trigger] all[i]) == Some(
            key.name(),
        ) implies env::line_value(all[i]) == value by {
        assert(!is_foreign_name(key.name()));
        let k = choose|k: EnvKey| all[i] == #[trigger] env_file::rendered_line(k, s);
        lemma_rendered_line(k, s);
        env_file::lemma_key_names(k);
    }
    lemma_assigned(all, key.name(), value);
    let want = env_file::rendered_line(key, s);
    lemma_rendered_line(key, s);
    assert(all.contains(want));
    let x = choose|x: int| 0 <= x < all.len() && all[x] == want;
    assert(env::line_key(all[x]) == Some(key.name()));
    // the legacy keys
    lemma_no_legacy(all, s, "MODEL_DIR"@);
    lemma_no_legacy(all, s, "IMAGE_DIR"@);
}

/// Whether a key is neither known nor a legacy one.
spec fn is_foreign_name(name: Seq<char>) -> bool {
    env_file::key_named(name) is None && !env_file::is_legacy(name)
}

proof fn lemma_no_legacy(all: Seq<Seq<char>>, s: Settings, name: Seq<char>)
    requires
        env_file::is_legacy(name),
        forall|i: int|
            #![trigger all[i]]
            0 <= i < all.len() ==> is_foreign(all[i]) || is_current(all[i], s),
    ensures
        !env::assigned(all).contains_key(name),
{
    assert forall|i: int| 0 <= i < all.len() implies env::line_key(#[trigger] all[i]) != Some(
        name,
    ) by {
        if is_current(all[i], s) {
            let k = choose|k: EnvKey| all[i] == #[trigger] env_file::rendered_line(k, s);
            lemma_rendered_line(k, s);
            env_file::lemma_key_names(k);
        }
    }
    lemma_assigned(all, name, Seq::empty());
}

// ---------------------------------------------------------------------------
// Reading back
// ---------------------------------------------------------------------------

proof fn lemma_names_read_back(s: Settings)
    ensures
        config::device_named(s.omni_device.name()) == Some(s.omni_device),
        config::policy_named(s.omni_provider_policy.name()) == Some(s.omni_provider_policy),
        s.omni_intra_threads != OmniIntraThreads::Fixed(0) ==> config::threads_named(
            s.omni_intra_threads.env_text(),
        ) == Ok::<OmniIntraThreads, config::ConfigError>(s.omni_intra_threads),
        config::is_supported_patches(s.omni_fgclip_max_patches) ==> env_file::patches_named(
            text::decimal(s.omni_fgclip_max_patches as nat),
        ) == Some(s.omni_fgclip_max_patches),
        env_file::port_named(text::decimal(s.port as nat)) == Some(s.port),
{
    reveal_strlit("auto");
    reveal_strlit("cpu");
    reveal_strlit("gpu");
    reveal_strlit("interactive");
    reveal_strlit("service");
    lemma_lower_name("auto"@);
    lemma_lower_name("cpu"@);
    lemma_lower_name("gpu"@);
    lemma_lower_name("interactive"@);
    lemma_lower_name("service"@);
    text::lemma_parse_decimal(s.omni_fgclip_max_patches as nat, usize::MAX as nat);
    text::lemma_parse_decimal(s.port as nat, u16::MAX as nat);
    if let OmniIntraThreads::Fixed(n) = s.omni_intra_threads {
        text::lemma_parse_decimal(n as nat, usize::MAX as nat);
        let t = text::decimal(n as nat);
        text::lemma_decimal(n as nat);
        assert(text::is_digit(t[0]));
        assert(text::is_digit(t[t.len() - 1]));
        text::lemma_trimmed_id(t);
        assert(text::lowered(t)[0] == t[0]);
        assert(text::lowered(t) != "auto"@);
    }
}

proof fn lemma_lower_name(t: Seq<char>)
    requires
        0 < t.len() <= 23,
        forall|i: int| 0 <= i < t.len() ==> 'a' <= #[trigger] t[i] <= 'z',
    ensures
        text::lowered(text::trimmed(t)) == t,
{
    assert('a' <= t[0] <= 'z');
    assert('a' <= t[t.len() - 1] <= 'z');
    text::lemma_trimmed_id(t);
    assert(text::lowered(t) =~= t);
}

/// What is saved is what is loaded: whatever the file held before and whatever the defaults
/// are, reading the file that was written for `s` gives `s`, and the file need not be written
/// again.
pub proof fn law_saved_settings_are_loaded(existing: Seq<char>, s: Settings, defaults: Settings)
    requires
        is_storable(s),
    ensures
        env_file::settings_from(env::env_map(env_file::env_file(existing, s)), defaults) == s,
        env_file::rewritten(Some(env_file::env_file(existing, s)), s) is None,
{
    let m = env::env_map(env_file::env_file(existing, s));
    assert forall|k: EnvKey|
        m.contains_key(#[trigger] k.name()) && m[k.name()] == env_file::plain_value(k, s) by {
        law_file_holds_settings(existing, s, k);
    }
    law_file_holds_settings(existing, s, EnvKey::DbPath);
    lemma_names_read_back(s);
    assert(m.contains_key(EnvKey::DbPath.name()));
    assert(m.contains_key(EnvKey::ModelPath.name()));
    assert(m.contains_key(EnvKey::OmniDevice.name()));
    assert(m.contains_key(EnvKey::OmniProviderPolicy.name()));
    assert(m.contains_key(EnvKey::OmniIntraThreads.name()));
    assert(m.contains_key(EnvKey::OmniFgclipMaxPatches.name()));
    assert(m.contains_key(EnvKey::Host.name()));
    assert(m.contains_key(EnvKey::Port.name()));
    assert(m.contains_key(EnvKey::AssetDir.name()));
    assert(m.contains_key(EnvKey::LogDir.name()));
}

/// What is loaded can be saved, if the defaults can.
pub proof fn law_loaded_settings_are_storable(m: Map<Seq<char>, Seq<char>>, defaults: Settings)
    requires
        is_storable(defaults),
    ensures
        is_storable(env_file::settings_from(m, defaults)),
{
    if m.contains_key(EnvKey::Host.name()) {
        text::lemma_trimmed_shape(m[EnvKey::Host.name()]);
    }
}

/// The defaults can be saved.
pub proof fn law_defaults_are_storable(asset_dir: Seq<char>)
    ensures
        is_storable(config::default_settings(asset_dir)),
{
    reveal_strlit("127.0.0.1");
    text::lemma_trimmed_id("127.0.0.1"@);
}

/// Loading settles: where loading writes the file, loading it again gives the same settings
/// and writes nothing.
pub proof fn law_loading_settles(
    existing: Option<Seq<char>>,
    defaults: Settings,
    other_defaults: Settings,
)
    requires
        is_storable(defaults),
    ensures
        ({
            let s = env_file::settings_from(env_file::existing_values(existing), defaults);
            env_file::rewritten(existing, s) matches Some(file) ==> {
                &&& env_file::settings_from(env::env_map(file), other_defaults) == s
                &&& env_file::rewritten(Some(file), s) is None
            }
        }),
{
    let s = env_file::settings_from(env_file::existing_values(existing), defaults);
    law_loaded_settings_are_storable(env_file::existing_values(existing), defaults);
    match existing {
        Some(t) => law_saved_settings_are_loaded(t, s, other_defaults),
        None => law_saved_settings_are_loaded(Seq::empty(), s, other_defaults),
    }
}

// ---------------------------------------------------------------------------
// What saving leaves alone
// ---------------------------------------------------------------------------

/// The lines that are none of the application's business.
pub open spec fn foreign_lines(ls: Seq<Seq<char>>) -> Seq<Seq<char>>
    decreases ls.len(),
{
    if ls.len() == 0 {
        Seq::empty()
    } else if is_foreign(ls.last()) {
        foreign_lines(ls.drop_last()).push(ls.last())
    } else {
        foreign_lines(ls.drop_last())
    }
}

/// Whether no line of a text ends with a carriage return that does not belong to its end.
pub open spec fn has_plain_ends(t: Seq<char>) -> bool {
    forall|i: int|
        0 <= i < text::lines(t).len() ==> text::strip_cr(#[trigger] text::lines(t)[i])
            == text::lines(t)[i]
}

proof fn lemma_foreign_lines_add(a: Seq<Seq<char>>, b: Seq<Seq<char>>)
    ensures
        foreign_lines(a + b) == foreign_lines(a) + foreign_lines(b),
    decreases b.len(),
{
    if b.len() == 0 {
        assert(a + b =~= a);
        assert(foreign_lines(a) + foreign_lines(b) =~= foreign_lines(a));
    } else {
        lemma_foreign_lines_add(a, b.drop_last());
        assert((a + b).drop_last() =~= a + b.drop_last());
        assert((a + b).last() == b.last());
        assert(foreign_lines(a + b) =~= foreign_lines(a) + foreign_lines(b));
    }
}

proof fn lemma_current_is_not_foreign(key: EnvKey, s: Settings)
    ensures
        !is_foreign(env_file::rendered_line(key, s)),
{
    lemma_rendered_line(key, s);
    env_file::lemma_key_names(key);
}

proof fn lemma_kept_foreign(ls: Seq<Seq<char>>, s: Settings)
    ensures
        foreign_lines(env_file::kept_lines(ls, s)) == foreign_lines(ls),
    decreases ls.len(),
{
    if ls.len() > 0 {
        let before = ls.drop_last();
        let line = ls.last();
        let kept = env_file::kept_lines(before, s);
        lemma_kept_foreign(before, s);
        assert(kept.push(line).drop_last() =~= kept);
        if let Some(name) = env::line_key(line) {
            if let Some(key) = env_file::key_named(name) {
                lemma_current_is_not_foreign(key, s);
                assert(kept.push(env_file::rendered_line(key, s)).drop_last() =~= kept);
            }
        }
    }
}

proof fn lemma_missing_foreign(ls: Seq<Seq<char>>, s: Settings, n: nat)
    ensures
        foreign_lines(env_file::missing_lines(ls, s, n)) == Seq::<Seq<char>>::empty(),
    decreases n,
{
    if n > 0 {
        lemma_missing_foreign(ls, s, (n - 1) as nat);
        let before = env_file::missing_lines(ls, s, (n - 1) as nat);
        let key = env_file::known_keys()[n - 1];
        lemma_current_is_not_foreign(key, s);
        assert(before.push(env_file::rendered_line(key, s)).drop_last() =~= before);
    }
}

proof fn lemma_env_lines_foreign(existing: Seq<char>, s: Settings)
    ensures
        foreign_lines(env_file::env_lines(existing, s)) == env_file::header_lines(existing)
            + foreign_lines(text::lines(existing)),
{
    let ls = text::lines(existing);
    let header = env_file::header_lines(existing);
    let kept = env_file::kept_lines(ls, s);
    let missing = env_file::missing_lines(ls, s, env_file::known_keys().len());
    lemma_foreign_lines_add(header + kept, missing);
    lemma_foreign_lines_add(header, kept);
    lemma_kept_foreign(ls, s);
    lemma_missing_foreign(ls, s, env_file::known_keys().len());
    lemma_header_is_comment();
    assert(foreign_lines(header) =~= header) by {
        if header.len() > 0 {
            assert(header.drop_last() =~= Seq::empty());
            assert(foreign_lines(header.drop_last()) =~= Seq::empty());
        }
    }
    assert(foreign_lines(env_file::env_lines(existing, s)) =~= header + foreign_lines(ls));
}

/// The lines of the file that was written.
proof fn lemma_written_lines(existing: Seq<char>, s: Settings)
    requires
        has_plain_ends(existing),
    ensures
        text::lines(env_file::env_file(existing, s)) == env_file::env_lines(existing, s),
{
    let all = env_file::env_lines(existing, s);
    lemma_env_lines(existing, s);
    text::lemma_lines_of_terminated(all);
    assert forall|i: int| 0 <= i < all.len() implies text::strip_cr(#[trigger] all[i])
        == all[i] by {
        lemma_plain_line(existing, s, i);
    }
    assert(all.map_values(|l: Seq<char>| text::strip_cr(l)) =~= all);
}

proof fn lemma_plain_rendered(key: EnvKey, s: Settings)
    ensures
        text::strip_cr(env_file::rendered_line(key, s)) == env_file::rendered_line(key, s),
{
    let line = env_file::rendered_line(key, s);
    lemma_written_value(key, s);
    assert(line.last() == written_value(key, s).last());
}

proof fn lemma_plain_kept(ls: Seq<Seq<char>>, s: Settings, i: int)
    requires
        forall|j: int| 0 <= j < ls.len() ==> text::strip_cr(#[trigger] ls[j]) == ls[j],
        0 <= i < env_file::kept_lines(ls, s).len(),
    ensures
        text::strip_cr(env_file::kept_lines(ls, s)[i]) == env_file::kept_lines(ls, s)[i],
    decreases ls.len(),
{
    if ls.len() > 0 {
        let before = ls.drop_last();
        assert forall|j: int| 0 <= j < before.len() implies text::strip_cr(#[trigger] before[j])
            == before[j] by {
            assert(before[j] == ls[j]);
        }
        if i < env_file::kept_lines(before, s).len() {
            lemma_plain_kept(before, s, i);
        } else {
            assert(text::strip_cr(ls[ls.len() - 1]) == ls[ls.len() - 1]);
            if let Some(name) = env::line_key(ls.last()) {
                if let Some(key) = env_file::key_named(name) {
                    lemma_plain_rendered(key, s);
                }
            }
        }
    }
}

proof fn lemma_plain_line(existing: Seq<char>, s: Settings, i: int)
    requires
        has_plain_ends(existing),
        0 <= i < env_file::env_lines(existing, s).len(),
    ensures
        text::strip_cr(env_file::env_lines(existing, s)[i]) == env_file::env_lines(
            existing,
            s,
        )[i],
{
    let ls = text::lines(existing);
    let header = env_file::header_lines(existing);
    let kept = env_file::kept_lines(ls, s);
    let missing = env_file::missing_lines(ls, s, env_file::known_keys().len());
    if i < header.len() {
        reveal_strlit("# PuppyFind local configuration");
    } else if i < header.len() + kept.len() {
        lemma_plain_kept(ls, s, i - header.len());
    } else {
        lemma_missing(ls, s, env_file::known_keys().len());
        let line = missing[i - header.len() - kept.len()];
        assert(is_current(line, s));
        let k = choose|k: EnvKey| line == #[trigger] env_file::rendered_line(k, s);
        lemma_plain_rendered(k, s);
    }
}

/// Saving leaves every comment, every blank line and every assignment to a key that the
/// application does not know where it was. Only a file that held nothing gets a comment of its
/// own.
pub proof fn law_foreign_lines_stay(existing: Seq<char>, s: Settings)
    requires
        has_plain_ends(existing),
    ensures
        foreign_lines(text::lines(env_file::env_file(existing, s))) == env_file::header_lines(
            existing,
        ) + foreign_lines(text::lines(existing)),
{
    lemma_written_lines(existing, s);
    lemma_env_lines_foreign(existing, s);
}

/// Whether two sequences of lines assign the same to the key `name`, if they assign to it.
spec fn assigns_same(a: Seq<Seq<char>>, b: Seq<Seq<char>>, name: Seq<char>) -> bool {
    let x = env::assigned(a);
    let y = env::assigned(b);
    x.contains_key(name) == y.contains_key(name) && (x.contains_key(name) ==> x[name] == y[name])
}

proof fn lemma_kept_values(ls: Seq<Seq<char>>, s: Settings, name: Seq<char>)
    requires
        is_foreign_name(name),
    ensures
        assigns_same(env_file::kept_lines(ls, s), ls, name),
    decreases ls.len(),
{
    if ls.len() > 0 {
        let before = ls.drop_last();
        let line = ls.last();
        let kept = env_file::kept_lines(before, s);
        lemma_kept_values(before, s, name);
        assert(kept.push(line).drop_last() =~= kept);
        if let Some(key_name) = env::line_key(line) {
            if let Some(key) = env_file::key_named(key_name) {
                let now = env_file::rendered_line(key, s);
                lemma_rendered_line(key, s);
                env_file::lemma_key_names(key);
                assert(kept.push(now).drop_last() =~= kept);
            }
        }
    }
}

/// Lines that do not assign to the key make no difference to it where they come later.
proof fn lemma_later_lines(a: Seq<Seq<char>>, b: Seq<Seq<char>>, name: Seq<char>)
    requires
        forall|i: int| 0 <= i < b.len() ==> env::line_key(#[trigger] b[i]) != Some(name),
    ensures
        assigns_same(a + b, a, name),
    decreases b.len(),
{
    if b.len() == 0 {
        assert(a + b =~= a);
    } else {
        let d = b.drop_last();
        assert forall|i: int| 0 <= i < d.len() implies env::line_key(#[trigger] d[i]) != Some(
            name,
        ) by {
            assert(d[i] == b[i]);
        }
        lemma_later_lines(a, d, name);
        assert((a + b).drop_last() =~= a + d);
        assert((a + b).last() == b[b.len() - 1]);
    }
}

/// A line that is no assignment makes no difference where it comes first.
proof fn lemma_earlier_line(line: Seq<char>, ls: Seq<Seq<char>>)
    requires
        env::line_key(line) is None,
    ensures
        env::assigned(seq![line] + ls) == env::assigned(ls),
    decreases ls.len(),
{
    let all = seq![line] + ls;
    if ls.len() == 0 {
        assert(all.drop_last() =~= Seq::empty());
        assert(all.last() == line);
        assert(env::assigned(all.drop_last()) =~= env::assigned(ls));
    } else {
        lemma_earlier_line(line, ls.drop_last());
        assert(all.drop_last() =~= seq![line] + ls.drop_last());
        assert(all.last() == ls.last());
    }
}

/// Saving changes the value of no key that the application does not know: whatever the file
/// held, such a key has the same value before and after, or none.
pub proof fn law_foreign_values_stay(existing: Seq<char>, s: Settings, name: Seq<char>)
    requires
        env_file::key_named(name) is None,
        !env_file::is_legacy(name),
    ensures
        env::env_map(env_file::env_file(existing, s)).contains_key(name) == env::env_map(
            existing,
        ).contains_key(name),
        env::env_map(existing).contains_key(name) ==> env::env_map(
            env_file::env_file(existing, s),
        )[name] == env::env_map(existing)[name],
{
    let ls = text::lines(existing);
    let n = env_file::known_keys().len();
    let header = env_file::header_lines(existing);
    let kept = env_file::kept_lines(ls, s);
    let missing = env_file::missing_lines(ls, s, n);
    let all = env_file::env_lines(existing, s);
    lemma_env_lines(existing, s);
    text::lemma_lines_of_terminated(all);
    lemma_assigned_of_stripped(all);
    assert(env::env_map(env_file::env_file(existing, s)) == env::assigned(all));
    lemma_kept_values(ls, s, name);
    lemma_header_is_comment();
    reveal_strlit("# PuppyFind local configuration");
    let h = "# PuppyFind local configuration"@;
    text::lemma_trimmed_id(h);
    assert(env::line_key(h) is None);
    if header.len() > 0 {
        lemma_earlier_line(h, kept);
    } else {
        assert(header + kept =~= kept);
    }
    lemma_missing(ls, s, n);
    assert forall|i: int| 0 <= i < missing.len() implies env::line_key(#[trigger] missing[i])
        != Some(name) by {
        let k = choose|k: EnvKey| missing[i] == #[trigger] env_file::rendered_line(k, s);
        lemma_rendered_line(k, s);
        env_file::lemma_key_names(k);
    }
    lemma_later_lines(header + kept, missing, name);
}

// ---------------------------------------------------------------------------
// Saving twice
// ---------------------------------------------------------------------------

/// Whether no two of the lines assign to the same known key.
spec fn assigns_once(ls: Seq<Seq<char>>) -> bool {
    forall|i: int, j: int, k: EnvKey|
        #![trigger ls[i], ls[j], k.name()]
        0 <= i < j < ls.len() && env::line_key(ls[i]) == Some(k.name()) ==> env::line_key(ls[j])
            != Some(k.name())
}

proof fn lemma_mentions_push(ls: Seq<Seq<char>>, line: Seq<char>, name: Seq<char>)
    ensures
        env_file::mentions(ls.push(line), name) == (env_file::mentions(ls, name) || env::line_key(
            line,
        ) == Some(name)),
{
    let all = ls.push(line);
    if env_file::mentions(ls, name) {
        let i = choose|i: int| 0 <= i < ls.len() && env::line_key(#[trigger] ls[i]) == Some(name);
        assert(all[i] == ls[i]);
    }
    if env::line_key(line) == Some(name) {
        assert(all[ls.len() as int] == line);
    }
    if env_file::mentions(all, name) {
        let i = choose|i: int|
            0 <= i < all.len() && env::line_key(#[trigger] all[i]) == Some(name);
        if i < ls.len() {
            assert(ls[i] == all[i]);
        }
    }
}

proof fn lemma_assigns_once_push(ls: Seq<Seq<char>>, line: Seq<char>)
    requires
        assigns_once(ls),
        forall|k: EnvKey|
            env::line_key(line) == Some(#[trigger] k.name()) ==> !env_file::mentions(ls, k.name()),
    ensures
        assigns_once(ls.push(line)),
{
    let all = ls.push(line);
    assert forall|i: int, j: int, k: EnvKey|
        #![trigger all[i], all[j], k.name()]
        0 <= i < j < all.len() && env::line_key(all[i]) == Some(k.name()) implies env::line_key(
        all[j],
    ) != Some(k.name()) by {
        assert(all[i] == ls[i]);
        if j < ls.len() {
            assert(all[j] == ls[j]);
        }
    }
}

proof fn lemma_kept_once(ls: Seq<Seq<char>>, s: Settings)
    ensures
        assigns_once(env_file::kept_lines(ls, s)),
        forall|k: EnvKey|
            env_file::mentions(env_file::kept_lines(ls, s), #[trigger] k.name())
                ==> env_file::mentions(ls, k.name()),
    decreases ls.len(),
{
    if ls.len() > 0 {
        let before = ls.drop_last();
        let line = ls.last();
        let kept = env_file::kept_lines(before, s);
        let after = env_file::kept_lines(ls, s);
        lemma_kept_once(before, s);
        assert(before.push(line) =~= ls);
        match env::line_key(line) {
            None => {
                lemma_assigns_once_push(kept, line);
            },
            Some(name) => {
                env_file::lemma_named_key(name);
                match env_file::key_named(name) {
                    Some(key) => {
                        if !env_file::mentions(before, name) {
                            let now = env_file::rendered_line(key, s);
                            lemma_rendered_line(key, s);
                            assert forall|k: EnvKey|
                                env::line_key(now) == Some(
                                    #[trigger] k.name(),
                                ) implies !env_file::mentions(kept, k.name()) by {
                                assert(k.name() == name);
                            }
                            lemma_assigns_once_push(kept, now);
                        }
                    },
                    None => {
                        if !env_file::is_legacy(name) {
                            assert forall|k: EnvKey|
                                env::line_key(line) == Some(
                                    #[trigger] k.name(),
                                ) implies !env_file::mentions(kept, k.name()) by {
                                env_file::lemma_key_names(k);
                            }
                            lemma_assigns_once_push(kept, line);
                        }
                    },
                }
            },
        }
        assert forall|k: EnvKey|
            env_file::mentions(after, #[trigger] k.name()) implies env_file::mentions(
            ls,
            k.name(),
        ) by {
            lemma_mentions_push(before, line, k.name());
            lemma_mentions_push(kept, line, k.name());
            if let Some(name) = env::line_key(line) {
                env_file::lemma_named_key(name);
                if let Some(key) = env_file::key_named(name) {
                    lemma_rendered_line(key, s);
                    lemma_mentions_push(kept, env_file::rendered_line(key, s), k.name());
                }
            }
        }
    }
}

/// The lines `kept` with those of the missing keys after them assign to no key twice.
proof fn lemma_missing_once(kept: Seq<Seq<char>>, ls: Seq<Seq<char>>, s: Settings, n: nat)
    requires
        n <= env_file::known_keys().len(),
        assigns_once(kept),
        forall|k: EnvKey|
            env_file::mentions(kept, #[trigger] k.name()) ==> env_file::mentions(ls, k.name()),
    ensures
        assigns_once(kept + env_file::missing_lines(ls, s, n)),
        forall|k: EnvKey|
            env_file::mentions(
                kept + env_file::missing_lines(ls, s, n),
                #[trigger] k.name(),
            ) ==> env_file::mentions(ls, k.name()) || key_index(k) < n,
    decreases n,
{
    if n == 0 {
        assert(kept + env_file::missing_lines(ls, s, n) =~= kept);
    } else {
        let m = (n - 1) as nat;
        lemma_missing_once(kept, ls, s, m);
        let before = kept + env_file::missing_lines(ls, s, m);
        let after = kept + env_file::missing_lines(ls, s, n);
        let key = env_file::known_keys()[n - 1];
        assert(key_index(key) == n - 1);
        let now = env_file::rendered_line(key, s);
        lemma_rendered_line(key, s);
        env_file::lemma_key_names(key);
        if env_file::mentions(ls, key.name()) {
            assert(after =~= before);
        } else {
            assert(after =~= before.push(now));
            assert forall|k: EnvKey| env::line_key(now) == Some(#[trigger] k.name()) implies
                !env_file::mentions(before, k.name()) by {
                env_file::lemma_key_names(k);
                assert(k == key);
            }
            lemma_assigns_once_push(before, now);
        }
        assert forall|k: EnvKey| env_file::mentions(after, #[trigger] k.name()) implies
            env_file::mentions(ls, k.name()) || key_index(k) < n by {
            lemma_mentions_push(before, now, k.name());
            env_file::lemma_key_names(k);
        }
    }
}

/// Lines that are as they should be stay as they are.
proof fn lemma_kept_fixed(ls: Seq<Seq<char>>, s: Settings)
    requires
        assigns_once(ls),
        forall|i: int|
            #![trigger ls[i]]
            0 <= i < ls.len() ==> is_foreign(ls[i]) || is_current(ls[i], s),
    ensures
        env_file::kept_lines(ls, s) == ls,
    decreases ls.len(),
{
    if ls.len() > 0 {
        let before = ls.drop_last();
        let n = ls.len() - 1;
        let line = ls[n];
        assert forall|i: int, j: int, k: EnvKey|
            #![trigger before[i], before[j], k.name()]
            0 <= i < j < before.len() && env::line_key(before[i]) == Some(
                k.name(),
            ) implies env::line_key(before[j]) != Some(k.name()) by {
            assert(before[i] == ls[i] && before[j] == ls[j]);
        }
        assert forall|i: int| #![trigger before[i]] 0 <= i < before.len() implies is_foreign(
            before[i],
        ) || is_current(before[i], s) by {
            assert(before[i] == ls[i]);
        }
        lemma_kept_fixed(before, s);
        if is_current(line, s) {
            let k = choose|k: EnvKey| line == #[trigger] env_file::rendered_line(k, s);
            lemma_rendered_line(k, s);
            env_file::lemma_key_names(k);
            if env_file::mentions(before, k.name()) {
                let i = choose|i: int|
                    0 <= i < before.len() && env::line_key(#[trigger] before[i]) == Some(k.name());
                assert(ls[i] == before[i]);
                assert(env::line_key(ls[n]) != Some(k.name()));
            }
        }
        assert(env_file::kept_lines(ls, s) =~= before.push(line));
        assert(before.push(line) =~= ls);
    }
}

proof fn lemma_nothing_missing(ls: Seq<Seq<char>>, s: Settings, n: nat)
    requires
        forall|k: EnvKey| env_file::mentions(ls, #[trigger] k.name()),
    ensures
        env_file::missing_lines(ls, s, n) == Seq::<Seq<char>>::empty(),
    decreases n,
{
    if n > 0 {
        lemma_nothing_missing(ls, s, (n - 1) as nat);
        assert(env_file::mentions(ls, env_file::known_keys()[n - 1].name()));
    }
}

/// The lines of the file assign to no known key twice.
proof fn lemma_env_lines_once(existing: Seq<char>, s: Settings)
    ensures
        assigns_once(env_file::env_lines(existing, s)),
{
    let ls = text::lines(existing);
    let header = env_file::header_lines(existing);
    let kept = env_file::kept_lines(ls, s);
    lemma_kept_once(ls, s);
    lemma_header_once(header, kept);
    lemma_header_mentions(existing, s);
    lemma_missing_once(header + kept, ls, s, env_file::known_keys().len());
}

/// Whether the line number `i` is the current one of `key` and no other line assigns to it.
pub open spec fn is_only_line(ls: Seq<Seq<char>>, i: int, key: EnvKey, s: Settings) -> bool {
    &&& 0 <= i < ls.len()
    &&& ls[i] == env_file::rendered_line(key, s)
    &&& forall|j: int|
        0 <= j < ls.len() && env::line_key(#[trigger] ls[j]) == Some(key.name()) ==> j == i
}

/// A file that was written has one line for each known key, and none for a legacy key.
pub proof fn law_one_line_per_key(existing: Seq<char>, s: Settings, key: EnvKey)
    ensures
        exists|i: int| #[trigger] is_only_line(env_file::env_lines(existing, s), i, key, s),
        forall|j: int, name: Seq<char>|
            0 <= j < env_file::env_lines(existing, s).len() && #[trigger] env_file::is_legacy(name)
                ==> env::line_key(#[trigger] env_file::env_lines(existing, s)[j]) != Some(name),
{
    let all = env_file::env_lines(existing, s);
    lemma_env_lines(existing, s);
    lemma_env_lines_once(existing, s);
    let want = env_file::rendered_line(key, s);
    lemma_rendered_line(key, s);
    assert(all.contains(want));
    let i = choose|i: int| 0 <= i < all.len() && all[i] == want;
    assert forall|j: int|
        0 <= j < all.len() && env::line_key(#[trigger] all[j]) == Some(key.name()) implies j
        == i by {
        if j < i {
            assert(env::line_key(all[i]) != Some(key.name()));
        } else if i < j {
            assert(env::line_key(all[i]) == Some(key.name()));
            assert(env::line_key(all[j]) != Some(key.name()));
        }
    }
    assert(is_only_line(all, i, key, s));
    assert forall|j: int, name: Seq<char>|
        0 <= j < all.len() && #[trigger] env_file::is_legacy(name) implies env::line_key(
        #[trigger] all[j],
    ) != Some(name) by {
        if is_current(all[j], s) {
            let k = choose|k: EnvKey| all[j] == #[trigger] env_file::rendered_line(k, s);
            lemma_rendered_line(k, s);
            env_file::lemma_key_names(k);
        }
    }
}

/// Saving the same settings a second time leaves the file as it is.
pub proof fn law_saving_twice_changes_nothing(existing: Seq<char>, s: Settings)
    requires
        has_plain_ends(existing),
    ensures
        env_file::env_file(env_file::env_file(existing, s), s) == env_file::env_file(existing, s),
{
    let file = env_file::env_file(existing, s);
    let all = env_file::env_lines(existing, s);
    let n = env_file::known_keys().len();
    lemma_written_lines(existing, s);
    lemma_env_lines(existing, s);
    // every known key is assigned to
    assert forall|k: EnvKey| env_file::mentions(all, #[trigger] k.name()) by {
        let want = env_file::rendered_line(k, s);
        assert(all.contains(want));
        lemma_rendered_line(k, s);
        let i = choose|i: int| 0 <= i < all.len() && all[i] == want;
        assert(env::line_key(all[i]) == Some(k.name()));
    }
    lemma_nothing_missing(all, s, n);
    // and only once
    lemma_env_lines_once(existing, s);
    lemma_kept_fixed(all, s);
    // the file does not count as empty
    let line = env_file::rendered_line(EnvKey::DbPath, s);
    lemma_key_shape(EnvKey::DbPath);
    assert(all.contains(line));
    let x = choose|x: int| 0 <= x < all.len() && all[x] == line;
    let c = line[0];
    assert(c == EnvKey::DbPath.name()[0]);
    assert(all[x].contains(c));
    text::lemma_terminated_holds(all, '\n', x, c);
    let i = choose|i: int| 0 <= i < file.len() && file[i] == c;
    text::lemma_trimmed_nonempty(file, i);
    assert(env_file::env_lines(file, s) =~= all);
}

proof fn lemma_header_mentions(existing: Seq<char>, s: Settings)
    ensures
        forall|k: EnvKey|
            env_file::mentions(
                env_file::header_lines(existing) + env_file::kept_lines(text::lines(existing), s),
                #[trigger] k.name(),
            ) ==> env_file::mentions(text::lines(existing), k.name()),
{
    let ls = text::lines(existing);
    let header = env_file::header_lines(existing);
    let kept = env_file::kept_lines(ls, s);
    let both = header + kept;
    lemma_kept_once(ls, s);
    lemma_header_is_comment();
    assert forall|k: EnvKey| env_file::mentions(both, #[trigger] k.name()) implies
        env_file::mentions(ls, k.name()) by {
        let i = choose|i: int|
            0 <= i < both.len() && env::line_key(#[trigger] both[i]) == Some(k.name());
        env_file::lemma_key_names(k);
        if i < header.len() {
            assert(both[i] == header[i]);
            assert(is_foreign(header[i]));
        } else {
            assert(both[i] == kept[i - header.len()]);
            assert(env_file::mentions(kept, k.name()));
        }
    }
}

proof fn lemma_header_once(header: Seq<Seq<char>>, kept: Seq<Seq<char>>)
    requires
        assigns_once(kept),
        header.len() == 0 || header == seq!["# PuppyFind local configuration"@],
    ensures
        assigns_once(header + kept),
{
    let both = header + kept;
    lemma_header_is_comment();
    assert forall|i: int, j: int, k: EnvKey|
        #![trigger both[i], both[j], k.name()]
        0 <= i < j < both.len() && env::line_key(both[i]) == Some(k.name()) implies env::line_key(
        both[j],
    ) != Some(k.name()) by {
        env_file::lemma_key_names(k);
        if i < header.len() {
            assert(both[i] == header[i]);
            assert(is_foreign(both[i]));
        } else {
            assert(both[i] == kept[i - header.len()]);
            assert(both[j] == kept[j - header.len()]);
        }
    }
}

} // verus!
