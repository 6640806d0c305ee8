//! Calls into other crates.

use vstd::prelude::*;

use crate::text;

verus! {

/// `omni_search::default_intra_threads` gives the number of physical cores, or of logical
/// ones, or a fixed number where neither is known. Which of them depends on the machine; it
/// is never zero.
pub assume_specification[ omni_search::default_intra_threads ]() -> (r: usize)
    ensures
        r >= 1,
;

/// The media type that `mime_guess` holds for files with the extension `ext`.
pub uninterp spec fn media_type(ext: Seq<char>) -> Seq<char>;

/// `mime_guess::from_ext` and, of what it gives, `first_or_octet_stream`: the media type of files
/// with an extension. It comes out of a fixed table, in which capital letters count as small
/// ones; nothing is known of files without an extension, so they are streams of octets. Which
/// type the table holds for which extension is not stated.
#[verifier::external_body]
pub(crate) fn guess_media_type(ext: &str) -> (r: String)
    ensures
        r@ == if ext@.len() == 0 {
            "application/octet-stream"@
        } else {
            media_type(text::lowered(ext@))
        },
{
    mime_guess::from_ext(ext).first_or_octet_stream().as_ref().to_owned()
}

/// The time `nanos` nanoseconds after the beginning of the Unix epoch, in universal time, as
/// RFC 3339 writes it; nothing for a time that it cannot write.
pub uninterp spec fn rfc3339(nanos: i128) -> Option<Seq<char>>;

/// `time::OffsetDateTime::from_unix_timestamp_nanos` and, of what it gives, `format` with
/// `Rfc3339`. Both depend on the number alone. A time out of the range of either gives nothing.
#[verifier::external_body]
pub(crate) fn format_rfc3339(nanos: i128) -> (r: Option<String>)
    ensures
        match r {
            Some(s) => rfc3339(nanos) == Some(s@),
            None => rfc3339(nanos) is None,
        },
{
    let moment = time::OffsetDateTime::from_unix_timestamp_nanos(nanos).ok()?;
    moment.format(&time::format_description::well_known::Rfc3339).ok()
}

} // verus!
