//! What the program does around the server: where it runs, which address it shows, and
//! which logs it removes.

use vstd::prelude::*;

use crate::config::AppSettings;
use crate::paths;
use crate::paths::parent_path;
use crate::text;
use crate::text::{decimal_text, find_char, is_text, starts_with, to_chars, to_lower};

verus! {

/// What the names of all log files begin with.
pub const LOG_FILE_PREFIX: &'static str = "puppy_find.log";

/// How long logs are kept, in nanoseconds: seven days.
pub const LOG_RETENTION_NANOS: i128 = 604_800_000_000_000;

/// The directory of the executable, which is that of the workspace.
pub fn workspace_of(executable: &str) -> (r: Option<String>)
    ensures
        text::of_string(r) == paths::parent_text(executable@),
{
    parent_path(executable)
}

/// The time before which logs are old.
pub fn log_cutoff(now: i128) -> (r: Option<i128>)
    ensures
        match r {
            Some(cutoff) => cutoff == now - LOG_RETENTION_NANOS,
            None => now - LOG_RETENTION_NANOS < i128::MIN,
        },
        r matches Some(cutoff) ==> now - cutoff == 7 * 24 * 60 * 60 * 1_000_000_000,
{
    now.checked_sub(LOG_RETENTION_NANOS)
}

/// Whether something in the directory of the logs is a log that is to be removed: `modified` is
/// when it was last changed, where that is known.
pub fn is_old_log(is_file: bool, file_name: &str, modified: Option<i128>, cutoff: i128) -> (r: bool)
    ensures
        r == (is_file && text::has_prefix(file_name@, LOG_FILE_PREFIX@) && modified is Some
            && modified->0 < cutoff),
{
    if !is_file {
        return false;
    }
    let name = to_chars(file_name);
    let prefix = to_chars(LOG_FILE_PREFIX);
    if !starts_with(name.as_slice(), prefix.as_slice()) {
        return false;
    }
    match modified {
        Some(time) => time < cutoff,
        None => false,
    }
}

/// The host under which a browser on this machine reaches the server.
pub open spec fn browser_host(host: Seq<char>) -> Seq<char> {
    if host == "0.0.0.0"@ {
        "127.0.0.1"@
    } else if host == "::"@ {
        "::1"@
    } else {
        host
    }
}

/// The address of the server: hosts that hold colons stand in brackets.
pub open spec fn base_url(host: Seq<char>, port: u16) -> Seq<char> {
    let h = browser_host(host);
    let tail = ":"@ + text::decimal(port as nat);
    if h.contains(':') && h[0] != '[' {
        "http://"@ + ("["@ + h + "]"@) + tail
    } else {
        "http://"@ + h + tail
    }
}

/// The address under which a browser on this machine reaches the server, which listens on
/// `port`.
pub fn browser_base_url(settings: &AppSettings, port: u16) -> (r: String)
    ensures
        r@ == base_url(settings.host@, port),
{
    let cs = to_chars(settings.host.as_str());
    let host = if is_text(cs.as_slice(), "0.0.0.0") {
        "127.0.0.1".to_owned()
    } else if is_text(cs.as_slice(), "::") {
        "::1".to_owned()
    } else {
        settings.host.clone()
    };
    let hs = to_chars(host.as_str());
    let at = find_char(hs.as_slice(), ':');
    let has_colon = at < hs.len();
    proof {
        text::lemma_find(hs@, ':');
        if hs@.contains(':') {
            let k = choose|k: int| 0 <= k < hs@.len() && hs@[k] == ':';
            assert(hs@[k] == ':');
        } else if has_colon {
            assert(hs@[at as int] == ':');
        }
    }
    let port_text = decimal_text(port as usize);
    let mut url = "http://".to_owned();
    if has_colon && hs[0] != '[' {
        let open = "[".to_owned();
        url.append(open.concat(host.as_str()).concat("]").as_str());
    } else {
        url.append(host.as_str());
    }
    let colon = ":".to_owned();
    url.append(colon.concat(port_text.as_str()).as_str());
    url
}

/// Whether the browser is not to be opened, by the value of the variable that says so.
pub fn skips_browser(value: Option<&str>) -> (r: bool)
    ensures
        r == match value {
            Some(v) => v@ == "1"@ || text::lowered(v@) == "true"@,
            None => false,
        },
{
    match value {
        Some(v) => {
            let cs = to_chars(v);
            let low = to_lower(cs.as_slice());
            is_text(cs.as_slice(), "1") || is_text(low.as_slice(), "true")
        },
        None => false,
    }
}

} // verus!
