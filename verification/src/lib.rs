//! Verified core of an HLS (M3U8) playlist downloader.
//!
//! The library holds the logic of a run: resolving segment references
//! against the playlist's base URL, parsing a playlist into its key URI
//! and segment list, rewriting a cached playlist for local playback, and
//! the work-queue discipline of the download pool. Network and file
//! system access live outside the library and hand it plain values.

pub mod m3u8_download;
pub mod pool;
pub mod rewrite;
pub mod text;

use vstd::prelude::*;

verus! {

/// True when `text` begins with the HLS playlist signature `#EXTM3U`.
pub open spec fn valid_index_spec(text: Seq<char>) -> bool {
    text.len() >= 7 && text.subrange(0, 7) == seq!['#', 'E', 'X', 'T', 'M', '3', 'U']
}

/// A fetched playlist body is accepted only when it starts with the
/// `#EXTM3U` signature; anything else aborts the run.
pub fn is_valid_index(text: &str) -> (b: bool)
    ensures
        b == valid_index_spec(text@),
{
    proof {
        reveal_strlit("#EXTM3U");
        assert("#EXTM3U"@ =~= seq!['#', 'E', 'X', 'T', 'M', '3', 'U']);
    }
    let b = crate::text::starts_with_str(text, "#EXTM3U");
    proof {
        if b {
            assert(text@.subrange(0, 7) =~= text@.take(7));
        } else {
            assert(text@.len() >= 7 ==> text@.take(7) =~= text@.subrange(0, 7));
        }
    }
    b
}

} // verus!
