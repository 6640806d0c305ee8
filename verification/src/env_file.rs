//! The environment file of the settings: how it is written, how it is read, and
//! that what is read is what was written.

use vstd::prelude::*;

use crate::config;
use crate::config::{
    parse_omni_intra_threads, parse_provider_policy, parse_runtime_device,
    validate_omni_fgclip_max_patches, AppSettings, OmniIntraThreads,
};
#[allow(unused_imports)]
use crate::config::Settings;
use crate::env;
use crate::env::{parse_env, parse_line, quote_env_value, EnvValues};
use crate::text;
use crate::text::{
    decimal_text, extend, is_text, parse_number, split_lines, to_chars, to_text, trim,
};

verus! {

// ---------------------------------------------------------------------------
// Keys
// ---------------------------------------------------------------------------

/// A key of the environment file that the application knows.
#[derive(Clone, Copy, Debug, PartialEq, Eq, Structural)]
pub enum EnvKey {
    DbPath,
    ModelPath,
    OmniDevice,
    OmniProviderPolicy,
    OmniIntraThreads,
    OmniFgclipMaxPatches,
    Host,
    Port,
    AssetDir,
    LogDir,
}

impl EnvKey {
    /// The key as it stands in the file.
    pub open spec fn name(self) -> Seq<char> {
        match self {
            EnvKey::DbPath => "DB_PATH"@,
            EnvKey::ModelPath => "MODEL_PATH"@,
            EnvKey::OmniDevice => "OMNI_DEVICE"@,
            EnvKey::OmniProviderPolicy => "OMNI_PROVIDER_POLICY"@,
            EnvKey::OmniIntraThreads => "OMNI_INTRA_THREADS"@,
            EnvKey::OmniFgclipMaxPatches => "OMNI_FGCLIP_MAX_PATCHES"@,
            EnvKey::Host => "HOST"@,
            EnvKey::Port => "PORT"@,
            EnvKey::AssetDir => "ASSET_DIR"@,
            EnvKey::LogDir => "LOG_DIR"@,
        }
    }

    /// The key as it stands in the file.
    pub fn as_text(self) -> (r: &'static str)
        ensures
            r@ == self.name(),
    {
        match self {
            EnvKey::DbPath => "DB_PATH",
            EnvKey::ModelPath => "MODEL_PATH",
            EnvKey::OmniDevice => "OMNI_DEVICE",
            EnvKey::OmniProviderPolicy => "OMNI_PROVIDER_POLICY",
            EnvKey::OmniIntraThreads => "OMNI_INTRA_THREADS",
            EnvKey::OmniFgclipMaxPatches => "OMNI_FGCLIP_MAX_PATCHES",
            EnvKey::Host => "HOST",
            EnvKey::Port => "PORT",
            EnvKey::AssetDir => "ASSET_DIR",
            EnvKey::LogDir => "LOG_DIR",
        }
    }
}

/// The known keys, in the order in which a new file holds them.
pub open spec fn known_keys() -> Seq<EnvKey> {
    seq![
        EnvKey::DbPath,
        EnvKey::ModelPath,
        EnvKey::OmniDevice,
        EnvKey::OmniProviderPolicy,
        EnvKey::OmniIntraThreads,
        EnvKey::OmniFgclipMaxPatches,
        EnvKey::Host,
        EnvKey::Port,
        EnvKey::AssetDir,
        EnvKey::LogDir,
    ]
}

/// The known keys, in the order in which a new file holds them.
fn list_known_keys() -> (r: Vec<EnvKey>)
    ensures
        r@ == known_keys(),
{
    let mut r: Vec<EnvKey> = Vec::new();
    r.push(EnvKey::DbPath);
    r.push(EnvKey::ModelPath);
    r.push(EnvKey::OmniDevice);
    r.push(EnvKey::OmniProviderPolicy);
    r.push(EnvKey::OmniIntraThreads);
    r.push(EnvKey::OmniFgclipMaxPatches);
    r.push(EnvKey::Host);
    r.push(EnvKey::Port);
    r.push(EnvKey::AssetDir);
    r.push(EnvKey::LogDir);
    assert(r@ =~= known_keys());
    r
}

/// The known key with this name.
pub open spec fn key_named(name: Seq<char>) -> Option<EnvKey> {
    if name == "DB_PATH"@ {
        Some(EnvKey::DbPath)
    } else if name == "MODEL_PATH"@ {
        Some(EnvKey::ModelPath)
    } else if name == "OMNI_DEVICE"@ {
        Some(EnvKey::OmniDevice)
    } else if name == "OMNI_PROVIDER_POLICY"@ {
        Some(EnvKey::OmniProviderPolicy)
    } else if name == "OMNI_INTRA_THREADS"@ {
        Some(EnvKey::OmniIntraThreads)
    } else if name == "OMNI_FGCLIP_MAX_PATCHES"@ {
        Some(EnvKey::OmniFgclipMaxPatches)
    } else if name == "HOST"@ {
        Some(EnvKey::Host)
    } else if name == "PORT"@ {
        Some(EnvKey::Port)
    } else if name == "ASSET_DIR"@ {
        Some(EnvKey::AssetDir)
    } else if name == "LOG_DIR"@ {
        Some(EnvKey::LogDir)
    } else {
        None
    }
}

/// Whether a key is one of those that earlier files had for the model and the images.
pub open spec fn is_legacy(name: Seq<char>) -> bool {
    name == "MODEL_DIR"@ || name == "IMAGE_DIR"@
}

/// The known key with this name.
fn find_key(name: &[char]) -> (r: Option<EnvKey>)
    ensures
        r == key_named(name@),
{
    let keys = list_known_keys();
    let mut i: usize = 0;
    while i < keys.len()
        invariant
            keys@ == known_keys(),
            i <= keys@.len(),
            forall|j: int| 0 <= j < i ==> (#[trigger] known_keys()[j]).name() != name@,
        decreases keys@.len() - i,
    {
        let key = keys[i];
        if is_text(name, key.as_text()) {
            proof {
                lemma_key_names(key);
            }
            return Some(key);
        }
        i += 1;
    }
    assert(key_named(name@) is None) by {
        assert(known_keys()[0].name() != name@);
        assert(known_keys()[1].name() != name@);
        assert(known_keys()[2].name() != name@);
        assert(known_keys()[3].name() != name@);
        assert(known_keys()[4].name() != name@);
        assert(known_keys()[5].name() != name@);
        assert(known_keys()[6].name() != name@);
        assert(known_keys()[7].name() != name@);
        assert(known_keys()[8].name() != name@);
        assert(known_keys()[9].name() != name@);
    }
    None
}

proof fn lemma_reveal_names()
    ensures
        "DB_PATH"@.len() == 7,
        "DB_PATH"@[0] == 'D',
        "MODEL_PATH"@.len() == 10,
        "MODEL_PATH"@[0] == 'M',
        "OMNI_DEVICE"@.len() == 11,
        "OMNI_DEVICE"@[0] == 'O',
        "OMNI_PROVIDER_POLICY"@.len() == 20,
        "OMNI_PROVIDER_POLICY"@[0] == 'O',
        "OMNI_INTRA_THREADS"@.len() == 18,
        "OMNI_INTRA_THREADS"@[0] == 'O',
        "OMNI_FGCLIP_MAX_PATCHES"@.len() == 23,
        "OMNI_FGCLIP_MAX_PATCHES"@[0] == 'O',
        "HOST"@.len() == 4,
        "HOST"@[0] == 'H',
        "PORT"@.len() == 4,
        "PORT"@[0] == 'P',
        "ASSET_DIR"@.len() == 9,
        "ASSET_DIR"@[0] == 'A',
        "LOG_DIR"@.len() == 7,
        "LOG_DIR"@[0] == 'L',
        "MODEL_DIR"@.len() == 9,
        "MODEL_DIR"@[0] == 'M',
        "IMAGE_DIR"@.len() == 9,
        "IMAGE_DIR"@[0] == 'I',
{
    reveal_strlit("DB_PATH");
    reveal_strlit("MODEL_PATH");
    reveal_strlit("OMNI_DEVICE");
    reveal_strlit("OMNI_PROVIDER_POLICY");
    reveal_strlit("OMNI_INTRA_THREADS");
    reveal_strlit("OMNI_FGCLIP_MAX_PATCHES");
    reveal_strlit("HOST");
    reveal_strlit("PORT");
    reveal_strlit("ASSET_DIR");
    reveal_strlit("LOG_DIR");
    reveal_strlit("MODEL_DIR");
    reveal_strlit("IMAGE_DIR");
}

/// A known key is found by its name, and is not a legacy one.
pub proof fn lemma_key_names(key: EnvKey)
    ensures
        key_named(key.name()) == Some(key),
        !is_legacy(key.name()),
        key_named("MODEL_DIR"@) is None,
        key_named("IMAGE_DIR"@) is None,
{
    lemma_reveal_names();
}

/// A key that is found has the name by which it was looked for.
pub proof fn lemma_named_key(name: Seq<char>)
    ensures
        match key_named(name) {
            Some(key) => key.name() == name,
            None => forall|k: EnvKey| (#[trigger] k.name()) != name,
        },
{
    assert forall|k: EnvKey| key_named(name) is None implies (#[trigger] k.name()) != name by {
        lemma_key_names(k);
    }
}

// ---------------------------------------------------------------------------
// Writing
// ---------------------------------------------------------------------------

/// The setting that belongs to a key, as text.
pub open spec fn plain_value(key: EnvKey, s: Settings) -> Seq<char> {
    match key {
        EnvKey::DbPath => s.db_path,
        EnvKey::ModelPath => s.model_path,
        EnvKey::OmniDevice => s.omni_device.name(),
        EnvKey::OmniProviderPolicy => s.omni_provider_policy.name(),
        EnvKey::OmniIntraThreads => s.omni_intra_threads.env_text(),
        EnvKey::OmniFgclipMaxPatches => text::decimal(s.omni_fgclip_max_patches as nat),
        EnvKey::Host => s.host,
        EnvKey::Port => text::decimal(s.port as nat),
        EnvKey::AssetDir => s.asset_dir,
        EnvKey::LogDir => s.log_dir,
    }
}

/// Whether the value of a key stands in the file without quotes.
pub open spec fn is_bare(key: EnvKey) -> bool {
    key == EnvKey::OmniIntraThreads || key == EnvKey::OmniFgclipMaxPatches || key == EnvKey::Port
}

/// The line of a key.
pub open spec fn rendered_line(key: EnvKey, s: Settings) -> Seq<char> {
    key.name() + seq!['='] + if is_bare(key) {
        plain_value(key, s)
    } else {
        env::quoted(plain_value(key, s))
    }
}

/// `key=value`, the value in double quotes.
pub fn render_string_assignment(key: &str, value: &str) -> (r: String)
    ensures
        r@ == key@ + seq!['='] + env::quoted(value@),
{
    let mut r = key.to_owned();
    r.push('=');
    let q = quote_env_value(value);
    let r2 = r.concat(q.as_str());
    assert(r2@ =~= key@ + seq!['='] + env::quoted(value@));
    r2
}

/// `key=value`, the value as it is.
fn render_bare_assignment(key: &str, value: &str) -> (r: String)
    ensures
        r@ == key@ + seq!['='] + value@,
{
    let mut r = key.to_owned();
    r.push('=');
    let r2 = r.concat(value);
    assert(r2@ =~= key@ + seq!['='] + value@);
    r2
}

/// The line of a known key.
fn render_key(key: EnvKey, settings: &AppSettings) -> (r: String)
    ensures
        r@ == rendered_line(key, settings@),
{
    let name = key.as_text();
    match key {
        EnvKey::DbPath => render_string_assignment(name, settings.db_path.as_str()),
        EnvKey::ModelPath => render_string_assignment(name, settings.model_path.as_str()),
        EnvKey::OmniDevice => {
            let value = settings.omni_device.as_text();
            render_string_assignment(name, value.as_str())
        },
        EnvKey::OmniProviderPolicy => {
            let value = settings.omni_provider_policy.as_text();
            render_string_assignment(name, value.as_str())
        },
        EnvKey::OmniIntraThreads => {
            let value = settings.omni_intra_threads.as_env_value();
            render_bare_assignment(name, value.as_str())
        },
        EnvKey::OmniFgclipMaxPatches => {
            let value = decimal_text(settings.omni_fgclip_max_patches);
            render_bare_assignment(name, value.as_str())
        },
        EnvKey::Host => render_string_assignment(name, settings.host.as_str()),
        EnvKey::Port => {
            let value = decimal_text(settings.port as usize);
            render_bare_assignment(name, value.as_str())
        },
        EnvKey::AssetDir => render_string_assignment(name, settings.asset_dir.as_str()),
        EnvKey::LogDir => render_string_assignment(name, settings.log_dir.as_str()),
    }
}

/// The line of the key with this name, if it is a known one.
pub fn render_known_line(key: &str, settings: &AppSettings) -> (r: Option<String>)
    ensures
        match key_named(key@) {
            Some(k) => r is Some && r->0@ == rendered_line(k, settings@),
            None => r is None,
        },
{
    let cs = to_chars(key);
    match find_key(cs.as_slice()) {
        Some(k) => Some(render_key(k, settings)),
        None => None,
    }
}

/// Whether one of the lines assigns to the key `name`.
pub open spec fn mentions(ls: Seq<Seq<char>>, name: Seq<char>) -> bool {
    exists|i: int| 0 <= i < ls.len() && env::line_key(#[trigger] ls[i]) == Some(name)
}

/// What becomes of the lines of an existing file: the first assignment to a known key gives
/// the current setting, later ones and those to legacy keys go, everything else stays.
pub open spec fn kept_lines(ls: Seq<Seq<char>>, s: Settings) -> Seq<Seq<char>>
    decreases ls.len(),
{
    if ls.len() == 0 {
        Seq::empty()
    } else {
        let before = ls.drop_last();
        let line = ls.last();
        let kept = kept_lines(before, s);
        match env::line_key(line) {
            None => kept.push(line),
            Some(name) => match key_named(name) {
                Some(key) => if mentions(before, name) {
                    kept
                } else {
                    kept.push(rendered_line(key, s))
                },
                None => if is_legacy(name) {
                    kept
                } else {
                    kept.push(line)
                },
            },
        }
    }
}

/// The lines of those among the first `n` known keys that an existing file does not assign to.
pub open spec fn missing_lines(ls: Seq<Seq<char>>, s: Settings, n: nat) -> Seq<Seq<char>>
    recommends
        n <= known_keys().len(),
    decreases n,
{
    if n == 0 {
        Seq::empty()
    } else {
        let before = missing_lines(ls, s, (n - 1) as nat);
        let key = known_keys()[n - 1];
        if mentions(ls, key.name()) {
            before
        } else {
            before.push(rendered_line(key, s))
        }
    }
}

/// The comment that starts a new file.
pub open spec fn header_lines(existing: Seq<char>) -> Seq<Seq<char>> {
    if text::trimmed(existing).len() == 0 {
        seq!["# PuppyFind local configuration"@]
    } else {
        Seq::empty()
    }
}

/// The lines of the file that keeps the settings `s`, where `existing` is what the file held.
pub open spec fn env_lines(existing: Seq<char>, s: Settings) -> Seq<Seq<char>> {
    header_lines(existing) + kept_lines(text::lines(existing), s) + missing_lines(
        text::lines(existing),
        s,
        known_keys().len(),
    )
}

/// The file that keeps the settings `s`, where `existing` is what the file held.
pub open spec fn env_file(existing: Seq<char>, s: Settings) -> Seq<char> {
    text::terminated(env_lines(existing, s), '\n')
}

/// Whether `key` is among the keys seen so far.
fn was_seen(seen: &Vec<EnvKey>, key: EnvKey) -> (r: bool)
    ensures
        r == seen@.contains(key),
{
    let mut i: usize = 0;
    while i < seen.len()
        invariant
            i <= seen@.len(),
            forall|j: int| 0 <= j < i ==> seen@[j] != key,
        decreases seen@.len() - i,
    {
        if seen[i] == key {
            return true;
        }
        i += 1;
    }
    false
}

/// Appends a line and its line feed.
fn push_line(out: &mut Vec<char>, line: &[char], Ghost(done): Ghost<Seq<Seq<char>>>)
    requires
        old(out)@ == text::terminated(done, '\n'),
    ensures
        final(out)@ == text::terminated(done.push(line@), '\n'),
{
    extend(out, line);
    out.push('\n');
    assert(done.push(line@).drop_last() =~= done);
    assert(out@ =~= text::terminated(done, '\n') + line@.push('\n'));
}

proof fn lemma_mentions_push(ls: Seq<Seq<char>>, i: int, name: Seq<char>)
    requires
        0 <= i < ls.len(),
    ensures
        mentions(ls.take(i + 1), name) == (mentions(ls.take(i), name) || env::line_key(ls[i])
            == Some(name)),
{
    let a = ls.take(i);
    let b = ls.take(i + 1);
    if mentions(a, name) {
        let j = choose|j: int| 0 <= j < a.len() && env::line_key(#[trigger] a[j]) == Some(name);
        assert(b[j] == a[j]);
    }
    if env::line_key(ls[i]) == Some(name) {
        assert(b[i] == ls[i]);
    }
    if mentions(b, name) {
        let j = choose|j: int| 0 <= j < b.len() && env::line_key(#[trigger] b[j]) == Some(name);
        if j < i {
            assert(a[j] == b[j]);
        }
    }
}

/// The file that keeps `settings`, where `existing_text` is what the file held.
pub fn render_env_file(existing_text: &str, settings: &AppSettings) -> (r: String)
    ensures
        r@ == env_file(existing_text@, settings@),
{
    let cs = to_chars(existing_text);
    let mut out: Vec<char> = Vec::new();
    let mut seen: Vec<EnvKey> = Vec::new();
    let ghost s = settings@;
    let ghost mut done: Seq<Seq<char>> = Seq::empty();
    assert(out@ =~= text::terminated(done, '\n'));
    if trim(cs.as_slice()).len() == 0 {
        let header = to_chars("# PuppyFind local configuration");
        push_line(&mut out, header.as_slice(), Ghost(done));
        proof {
            done = done.push(header@);
        }
    }
    let ghost header = done;
    assert(header =~= header_lines(existing_text@));
    let ls = split_lines(cs.as_slice());
    let ghost all = text::texts(ls@);
    assert(all.take(0) =~= Seq::empty());
    assert(done =~= header + kept_lines(all.take(0), s));
    let mut i: usize = 0;
    while i < ls.len()
        invariant
            s == settings@,
            all == text::texts(ls@),
            i <= ls@.len(),
            out@ == text::terminated(done, '\n'),
            done == header + kept_lines(all.take(i as int), s),
            forall|k: EnvKey|
                seen@.contains(k) <==> #[trigger] mentions(all.take(i as int), k.name()),
        decreases ls@.len() - i,
    {
        let line = ls[i].as_slice();
        let ghost before = all.take(i as int);
        let ghost after = all.take(i + 1);
        let ghost kept = kept_lines(before, s);
        assert(after.drop_last() =~= before);
        assert(after.last() == line@);
        proof {
            assert forall|k: EnvKey| #[trigger] mentions(after, k.name()) == (mentions(
                before,
                k.name(),
            ) || env::line_key(line@) == Some(k.name())) by {
                lemma_mentions_push(all, i as int, k.name());
            }
        }
        match parse_line(line) {
            None => {
                push_line(&mut out, line, Ghost(done));
                proof {
                    done = done.push(line@);
                }
                assert(done =~= header + kept.push(line@));
            },
            Some((name, _)) => {
                proof {
                    lemma_named_key(name@);
                }
                match find_key(name) {
                    Some(key) => {
                        if !was_seen(&seen, key) {
                            let rendered = render_key(key, settings);
                            let rendered_chars = to_chars(rendered.as_str());
                            push_line(&mut out, rendered_chars.as_slice(), Ghost(done));
                            proof {
                                done = done.push(rendered@);
                            }
                            assert(done =~= header + kept.push(rendered@));
                            let ghost seen_before = seen@;
                            seen.push(key);
                            assert forall|k: EnvKey|
                                seen@.contains(k) <==> #[trigger] mentions(after, k.name()) by {
                                if seen_before.contains(k) {
                                    let j = choose|j: int|
                                        0 <= j < seen_before.len() && seen_before[j] == k;
                                    assert(seen@[j] == k);
                                }
                                assert(seen@[seen_before.len() as int] == key);
                                if k.name() == key.name() {
                                    lemma_key_names(k);
                                    lemma_key_names(key);
                                }
                            }
                        } else {
                            assert forall|k: EnvKey|
                                seen@.contains(k) <==> #[trigger] mentions(after, k.name()) by {
                                if k.name() == key.name() {
                                    lemma_key_names(k);
                                    lemma_key_names(key);
                                }
                            }
                        }
                    },
                    None => {
                        if !is_text(name, "MODEL_DIR") && !is_text(name, "IMAGE_DIR") {
                            push_line(&mut out, line, Ghost(done));
                            proof {
                                done = done.push(line@);
                            }
                            assert(done =~= header + kept.push(line@));
                        }
                    },
                }
            },
        }
        i += 1;
    }
    assert(all.take(i as int) =~= all);
    let keys = list_known_keys();
    let ghost kept = kept_lines(all, s);
    assert(done =~= header + kept + missing_lines(all, s, 0));
    let mut j: usize = 0;
    while j < keys.len()
        invariant
            s == settings@,
            keys@ == known_keys(),
            j <= keys@.len(),
            out@ == text::terminated(done, '\n'),
            done == header + kept + missing_lines(all, s, j as nat),
            forall|k: EnvKey| seen@.contains(k) <==> #[trigger] mentions(all, k.name()),
        decreases keys@.len() - j,
    {
        let key = keys[j];
        let ghost missing = missing_lines(all, s, j as nat);
        assert(known_keys()[j as int] == key);
        if !was_seen(&seen, key) {
            let rendered = render_key(key, settings);
            let rendered_chars = to_chars(rendered.as_str());
            push_line(&mut out, rendered_chars.as_slice(), Ghost(done));
            proof {
                done = done.push(rendered@);
            }
            assert(!mentions(all, key.name()));
            assert(done =~= header + kept + missing.push(rendered@));
        } else {
            assert(mentions(all, key.name()));
        }
        j += 1;
    }
    to_text(out.as_slice())
}

// ---------------------------------------------------------------------------
// Reading
// ---------------------------------------------------------------------------

/// The value of `name`, if there is one.
pub open spec fn value_of(m: Map<Seq<char>, Seq<char>>, name: Seq<char>) -> Option<Seq<char>> {
    if m.contains_key(name) {
        Some(m[name])
    } else {
        None
    }
}

/// The value of `name`, or `fallback`.
pub open spec fn value_or(
    m: Map<Seq<char>, Seq<char>>,
    name: Seq<char>,
    fallback: Seq<char>,
) -> Seq<char> {
    if m.contains_key(name) {
        m[name]
    } else {
        fallback
    }
}

/// The number of patches that a text asks for, if the model takes it.
pub open spec fn patches_named(s: Seq<char>) -> Option<usize> {
    match text::parsed_number(s, usize::MAX as nat) {
        Some(n) => if config::is_supported_patches(n as usize) {
            Some(n as usize)
        } else {
            None
        },
        None => None,
    }
}

/// The port that a text names.
pub open spec fn port_named(s: Seq<char>) -> Option<u16> {
    match text::parsed_number(s, u16::MAX as nat) {
        Some(n) => Some(n as u16),
        None => None,
    }
}

/// The settings that the values `m` give, with `d` for what they leave open or get wrong.
pub open spec fn settings_from(m: Map<Seq<char>, Seq<char>>, d: Settings) -> Settings {
    Settings {
        db_path: value_or(m, EnvKey::DbPath.name(), d.db_path),
        model_path: value_or(
            m,
            EnvKey::ModelPath.name(),
            value_or(m, "MODEL_DIR"@, d.model_path),
        ),
        omni_device: match value_of(m, EnvKey::OmniDevice.name()) {
            Some(v) => match config::device_named(v) {
                Some(device) => device,
                None => d.omni_device,
            },
            None => d.omni_device,
        },
        omni_provider_policy: match value_of(m, EnvKey::OmniProviderPolicy.name()) {
            Some(v) => match config::policy_named(v) {
                Some(policy) => policy,
                None => d.omni_provider_policy,
            },
            None => d.omni_provider_policy,
        },
        omni_intra_threads: match value_of(m, EnvKey::OmniIntraThreads.name()) {
            Some(v) => match config::threads_named(v) {
                Ok(threads) => threads,
                Err(_) => d.omni_intra_threads,
            },
            None => d.omni_intra_threads,
        },
        omni_fgclip_max_patches: match value_of(m, EnvKey::OmniFgclipMaxPatches.name()) {
            Some(v) => match patches_named(v) {
                Some(patches) => patches,
                None => d.omni_fgclip_max_patches,
            },
            None => d.omni_fgclip_max_patches,
        },
        host: match value_of(m, EnvKey::Host.name()) {
            Some(v) => if text::trimmed(v).len() > 0 {
                text::trimmed(v)
            } else {
                d.host
            },
            None => d.host,
        },
        port: match value_of(m, EnvKey::Port.name()) {
            Some(v) => match port_named(v) {
                Some(port) => port,
                None => d.port,
            },
            None => d.port,
        },
        asset_dir: value_or(m, EnvKey::AssetDir.name(), value_or(m, "IMAGE_DIR"@, d.asset_dir)),
        log_dir: value_or(m, EnvKey::LogDir.name(), d.log_dir),
    }
}

/// Whether the values `m` lack a known key, hold a legacy one, or hold one that is wrong.
pub open spec fn is_outdated(m: Map<Seq<char>, Seq<char>>) -> bool {
    ||| exists|k: EnvKey| !m.contains_key(#[trigger] k.name())
    ||| m.contains_key("MODEL_DIR"@)
    ||| m.contains_key("IMAGE_DIR"@)
    ||| text::trimmed(m[EnvKey::Host.name()]).len() == 0
    ||| port_named(m[EnvKey::Port.name()]) is None
    ||| config::device_named(m[EnvKey::OmniDevice.name()]) is None
    ||| config::policy_named(m[EnvKey::OmniProviderPolicy.name()]) is None
    ||| config::threads_named(m[EnvKey::OmniIntraThreads.name()]) is Err
    ||| patches_named(m[EnvKey::OmniFgclipMaxPatches.name()]) is None
}

/// The values of an environment file, which may not exist.
pub open spec fn existing_values(existing: Option<Seq<char>>) -> Map<Seq<char>, Seq<char>> {
    match existing {
        Some(t) => env::env_map(t),
        None => Map::empty(),
    }
}

/// The file to write after reading one: none where the file exists and is up to date.
pub open spec fn rewritten(existing: Option<Seq<char>>, s: Settings) -> Option<Seq<char>> {
    match existing {
        Some(t) => if is_outdated(env::env_map(t)) {
            Some(env_file(t, s))
        } else {
            None
        },
        None => Some(env_file(Seq::empty(), s)),
    }
}

/// Settings, and the environment file to write for them, if it has to be written.
pub struct LoadedSettings {
    pub settings: AppSettings,
    pub rewrite: Option<String>,
}

fn text_value(values: &EnvValues, key: &str, fallback: String) -> (r: String)
    requires
        values.well_formed(),
    ensures
        r@ == value_or(values@, key@, fallback@),
{
    match values.get(key) {
        Some(v) => v,
        None => fallback,
    }
}

fn get_value<'a>(values: &'a EnvValues, key: EnvKey) -> (r: Option<&'a Vec<char>>)
    requires
        values.well_formed(),
    ensures
        match r {
            Some(v) => value_of(values@, key.name()) == Some(v@),
            None => value_of(values@, key.name()) is None,
        },
{
    let name = to_chars(key.as_text());
    values.lookup(name.as_slice())
}

fn parse_port(value: &[char]) -> (r: Option<u16>)
    ensures
        r == port_named(value@),
{
    match parse_number(value, u16::MAX as usize) {
        Some(n) => Some(n as u16),
        None => None,
    }
}

fn parse_patches(value: &[char]) -> (r: Option<usize>)
    ensures
        r == patches_named(value@),
{
    match parse_number(value, usize::MAX) {
        Some(n) => match validate_omni_fgclip_max_patches(n) {
            Ok(n) => Some(n),
            Err(_) => None,
        },
        None => None,
    }
}

/// Whether every known key has a value.
fn is_complete(values: &EnvValues) -> (r: bool)
    requires
        values.well_formed(),
    ensures
        r == (forall|k: EnvKey| values@.contains_key(#[trigger] k.name())),
{
    let keys = list_known_keys();
    let mut i: usize = 0;
    while i < keys.len()
        invariant
            values.well_formed(),
            keys@ == known_keys(),
            i <= keys@.len(),
            forall|j: int| 0 <= j < i ==> values@.contains_key((#[trigger] known_keys()[j]).name()),
        decreases keys@.len() - i,
    {
        let key = keys[i];
        if get_value(values, key).is_none() {
            assert(!values@.contains_key(key.name()));
            return false;
        }
        i += 1;
    }
    assert forall|k: EnvKey| values@.contains_key(#[trigger] k.name()) by {
        let j: int = match k {
            EnvKey::DbPath => 0,
            EnvKey::ModelPath => 1,
            EnvKey::OmniDevice => 2,
            EnvKey::OmniProviderPolicy => 3,
            EnvKey::OmniIntraThreads => 4,
            EnvKey::OmniFgclipMaxPatches => 5,
            EnvKey::Host => 6,
            EnvKey::Port => 7,
            EnvKey::AssetDir => 8,
            EnvKey::LogDir => 9,
        };
        assert(known_keys()[j] == k);
    }
    true
}

/// Reads the settings of an environment file, which may not exist, with `defaults` for what
/// it leaves open or gets wrong. The file is to be written again where it does not exist,
/// lacks a key, has a legacy key, or has a wrong value.
pub fn load_settings(existing_text: Option<&str>, defaults: &AppSettings) -> (r: LoadedSettings)
    ensures
        r.settings@ == settings_from(existing_values(text::of_str(existing_text)), defaults@),
        text::of_string(r.rewrite) == rewritten(text::of_str(existing_text), r.settings@),
{
    let values = match existing_text {
        Some(t) => parse_env(t),
        None => EnvValues::new(),
    };
    let mut wrong = false;
    let omni_device = match get_value(&values, EnvKey::OmniDevice) {
        Some(v) => match parse_runtime_device(v.as_slice()) {
            Ok(device) => device,
            Err(_) => {
                wrong = true;
                defaults.omni_device
            },
        },
        None => defaults.omni_device,
    };
    let omni_provider_policy = match get_value(&values, EnvKey::OmniProviderPolicy) {
        Some(v) => match parse_provider_policy(v.as_slice()) {
            Ok(policy) => policy,
            Err(_) => {
                wrong = true;
                defaults.omni_provider_policy
            },
        },
        None => defaults.omni_provider_policy,
    };
    let omni_intra_threads = match get_value(&values, EnvKey::OmniIntraThreads) {
        Some(v) => match parse_omni_intra_threads(v.as_slice()) {
            Ok(threads) => threads,
            Err(_) => {
                wrong = true;
                defaults.omni_intra_threads
            },
        },
        None => defaults.omni_intra_threads,
    };
    let omni_fgclip_max_patches: usize = match get_value(&values, EnvKey::OmniFgclipMaxPatches) {
        Some(v) => match parse_patches(v.as_slice()) {
            Some(patches) => patches,
            None => {
                wrong = true;
                defaults.omni_fgclip_max_patches
            },
        },
        None => defaults.omni_fgclip_max_patches,
    };
    let host = match get_value(&values, EnvKey::Host) {
        Some(v) => {
            let t = trim(v.as_slice());
            if t.len() > 0 {
                to_text(t)
            } else {
                wrong = true;
                defaults.host.clone()
            }
        },
        None => defaults.host.clone(),
    };
    let port: u16 = match get_value(&values, EnvKey::Port) {
        Some(v) => match parse_port(v.as_slice()) {
            Some(port) => port,
            None => {
                wrong = true;
                defaults.port
            },
        },
        None => defaults.port,
    };
    let old_model = text_value(&values, "MODEL_DIR", defaults.model_path.clone());
    let old_assets = text_value(&values, "IMAGE_DIR", defaults.asset_dir.clone());
    let settings = AppSettings {
        db_path: text_value(&values, EnvKey::DbPath.as_text(), defaults.db_path.clone()),
        model_path: text_value(&values, EnvKey::ModelPath.as_text(), old_model),
        omni_device,
        omni_provider_policy,
        omni_intra_threads,
        omni_fgclip_max_patches,
        host,
        port,
        asset_dir: text_value(&values, EnvKey::AssetDir.as_text(), old_assets),
        log_dir: text_value(&values, EnvKey::LogDir.as_text(), defaults.log_dir.clone()),
    };
    let legacy = values.get("MODEL_DIR").is_some() || values.get("IMAGE_DIR").is_some();
    let outdated = !is_complete(&values) || legacy || wrong;
    assert(outdated == is_outdated(values@)) by {
        if !(exists|k: EnvKey| !values@.contains_key(#[trigger] k.name())) {
            assert(values@.contains_key(EnvKey::Host.name()));
            assert(values@.contains_key(EnvKey::Port.name()));
            assert(values@.contains_key(EnvKey::OmniDevice.name()));
            assert(values@.contains_key(EnvKey::OmniProviderPolicy.name()));
            assert(values@.contains_key(EnvKey::OmniIntraThreads.name()));
            assert(values@.contains_key(EnvKey::OmniFgclipMaxPatches.name()));
        }
    }
    let rewrite = match existing_text {
        Some(t) => if outdated {
            Some(render_env_file(t, &settings))
        } else {
            None
        },
        None => {
            proof {
                reveal_strlit("");
                assert(""@ =~= Seq::<char>::empty());
            }
            Some(render_env_file("", &settings))
        },
    };
    LoadedSettings { settings, rewrite }
}

/// Reads the settings of an environment file, which may not exist, with the defaults of a user
/// with these directories for what it leaves open or gets wrong.
pub fn load_or_create(
    existing_text: Option<&str>,
    pictures: Option<String>,
    home: Option<String>,
) -> (r: LoadedSettings)
    ensures
        r.settings@ == settings_from(
            existing_values(text::of_str(existing_text)),
            config::default_settings(
                config::chosen_asset_dir(text::of_string(pictures), text::of_string(home)),
            ),
        ),
        text::of_string(r.rewrite) == rewritten(text::of_str(existing_text), r.settings@),
{
    let defaults = AppSettings::defaults(pictures, home);
    load_settings(existing_text, &defaults)
}

/// The environment file to write for `settings`, where `existing_text` is what it holds, if
/// it exists.
pub fn save(existing_text: Option<&str>, settings: &AppSettings) -> (r: String)
    ensures
        r@ == env_file(
            match text::of_str(existing_text) {
                Some(t) => t,
                None => Seq::empty(),
            },
            settings@,
        ),
{
    match existing_text {
        Some(t) => render_env_file(t, settings),
        None => {
            proof {
                reveal_strlit("");
                assert(""@ =~= Seq::<char>::empty());
            }
            render_env_file("", settings)
        },
    }
}

} // verus!
