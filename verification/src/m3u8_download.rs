//! The download target and the pure logic of a run: URL resolution,
//! local-name derivation, and playlist parsing. The surrounding process
//! fetches bytes and writes files; every decision about what those bytes
//! mean is made here, under contract.

use crate::text::{
    has_prefix, join_spec, join_strs, normalize_newlines, normalize_spec, split_spec, split_str,
    starts_with_str, strip_quotes, strip_quotes_spec, views_of,
};
use vstd::prelude::*;

verus! {

/// One download run: the playlist URL, the output directory, and the
/// number of pool workers.
#[derive(Debug, Clone)]
pub struct M3U8Download {
    pub url: String,
    pub path: String,
    pub thread: u8,
}

impl M3U8Download {
    /// Build a download target from the caller's plain arguments.
    pub fn from(url: String, output: String, thread: u8) -> (r: M3U8Download)
        ensures
            r.url@ == url@,
            r.path@ == output@,
            r.thread == thread,
    {
        M3U8Download { url, path: output, thread }
    }

    /// Resolve `url` against `root_url`.
    pub fn parse_url(root_url: &str, url: &str) -> (r: String)
        ensures
            r@ == resolve_spec(root_url@, url@),
    {
        proof {
            reveal_strlit("http");
            assert("http"@ =~= http_prefix());
        }
        if starts_with_str(url, "http") {
            return String::from_str(url);
        }
        let mut parts = split_str(root_url, '/');
        proof {
            crate::text::lemma_split_len(root_url@, '/');
            assert(views_of(parts@).len() >= 1);
        }
        parts.pop();
        parts.push(String::from_str(url));
        proof {
            reveal_strlit("/");
            assert("/"@ =~= seq!['/']);
            assert(views_of(parts@) =~= split_spec(root_url@, '/').drop_last().push(url@));
        }
        join_strs(&parts, '/', "/")
    }

    /// The local file name of a segment or key URL: its final path
    /// component.
    pub fn parse_name(value: &str) -> (r: String)
        ensures
            r@ == basename_spec(value@),
    {
        let mut parts = split_str(value, '/');
        proof {
            crate::text::lemma_split_len(value@, '/');
            assert(views_of(parts@).len() >= 1);
            assert(views_of(parts@).last() == parts@.last()@);
        }
        match parts.pop() {
            Some(name) => name,
            None => String::new(),
        }
    }

    /// Split playlist text into its encryption-key URI (empty when no
    /// key directive appears) and its segment lines, in document order.
    pub fn parse(&self, index_file: &str) -> (r: (String, Vec<String>))
        ensures
            r.0@ == key_uri_spec(lines_spec(index_file@)),
            views_of(r.1@) == segments_spec(lines_spec(index_file@)),
    {
        let normalized = normalize_newlines(index_file);
        let rows = split_str(normalized.as_str(), '\n');
        let ghost lines = lines_spec(index_file@);
        proof {
            assert(views_of(rows@) == lines);
        }
        let n = rows.len();
        let mut key = String::new();
        let mut result: Vec<String> = Vec::new();
        let mut i: usize = 0;
        proof {
            assert(lines.take(0) =~= Seq::<Seq<char>>::empty());
            assert(lines.skip(0) =~= lines);
            assert(views_of(result@) + segments_spec(lines) =~= segments_spec(lines));
        }
        while i < n
            invariant
                0 <= i <= n == rows@.len(),
                views_of(rows@) == lines,
                key@ == key_uri_spec(lines.take(i as int)),
                segments_spec(lines) == views_of(result@) + segments_spec(lines.skip(i as int)),
            decreases n - i,
        {
            proof {
                assert(lines[i as int] == rows@[i as int]@);
                assert(lines.take(i + 1).drop_last() =~= lines.take(i as int));
                assert(lines.take(i + 1).last() == lines[i as int]);
                assert(lines.skip(i as int)[0] == lines[i as int]);
                assert(lines.skip(i as int).skip(1) =~= lines.skip(i + 1));
            }
            let row = &rows[i];
            proof {
                reveal_strlit("#EXT-X-KEY:");
                assert("#EXT-X-KEY:"@ =~= key_directive_prefix());
            }
            if starts_with_str(row.as_str(), "#EXT-X-KEY:") {
                key = key_line_uri(row.as_str());
            }
            if is_directive(row.as_str()) {
                proof {
                    assert(segments_spec(lines.skip(i as int)) == segments_spec(
                        lines.skip(i + 1),
                    ));
                }
            } else {
                result.push(row.clone());
                proof {
                    assert(views_of(result@) =~= views_of(result@.drop_last()) + seq![
                        lines[i as int],
                    ]);
                    assert(views_of(result@.drop_last()) + (seq![lines[i as int]] + segments_spec(
                        lines.skip(i + 1),
                    )) =~= views_of(result@) + segments_spec(lines.skip(i + 1)));
                }
            }
            i = i + 1;
        }
        proof {
            assert(lines.take(n as int) =~= lines);
            assert(lines.skip(n as int) =~= Seq::<Seq<char>>::empty());
        }
        (key, result)
    }
}

/// The four characters every absolute reference starts with; a
/// reference carrying a scheme is returned unresolved.
pub open spec fn http_prefix() -> Seq<char> {
    seq!['h', 't', 't', 'p']
}

/// Resolution of a possibly-relative reference `url` against `root`:
/// an absolute reference passes through; otherwise the final path
/// component of `root` is replaced by `url`.
pub open spec fn resolve_spec(root: Seq<char>, url: Seq<char>) -> Seq<char> {
    if has_prefix(url, http_prefix()) {
        url
    } else {
        join_spec(split_spec(root, '/').drop_last().push(url), '/')
    }
}

/// The final path component of `s`.
pub open spec fn basename_spec(s: Seq<char>) -> Seq<char> {
    split_spec(s, '/').last()
}

/// The marker of a key directive line.
pub open spec fn key_directive_prefix() -> Seq<char> {
    seq!['#', 'E', 'X', 'T', '-', 'X', '-', 'K', 'E', 'Y', ':']
}

/// The line declares the encryption key.
pub open spec fn line_is_key(l: Seq<char>) -> bool {
    has_prefix(l, key_directive_prefix())
}

/// The line is a directive or comment rather than a segment reference.
pub open spec fn line_is_directive(l: Seq<char>) -> bool {
    l.len() > 0 && l[0] == '#'
}

/// The attribute marker whose value is the key's URI.
pub open spec fn uri_prefix() -> Seq<char> {
    seq!['U', 'R', 'I', '=']
}

/// The value of the first `URI=` attribute among comma-separated
/// `fields`, quotes stripped; empty when no field carries one.
pub open spec fn uri_of_fields(fields: Seq<Seq<char>>) -> Seq<char>
    decreases fields.len(),
{
    if fields.len() == 0 {
        Seq::empty()
    } else if has_prefix(fields[0], uri_prefix()) {
        strip_quotes_spec(fields[0].skip(4))
    } else {
        uri_of_fields(fields.skip(1))
    }
}

/// The key URI carried by a key directive line.
pub open spec fn key_uri_of_line(l: Seq<char>) -> Seq<char> {
    uri_of_fields(split_spec(l, ','))
}

/// The lines of playlist text, after newline normalization.
pub open spec fn lines_spec(text: Seq<char>) -> Seq<Seq<char>> {
    split_spec(normalize_spec(text), '\n')
}

/// The key URI of a document: the URI of its last key directive line,
/// empty when none appears.
pub open spec fn key_uri_spec(lines: Seq<Seq<char>>) -> Seq<char>
    decreases lines.len(),
{
    if lines.len() == 0 {
        Seq::empty()
    } else if line_is_key(lines.last()) {
        key_uri_of_line(lines.last())
    } else {
        key_uri_spec(lines.drop_last())
    }
}

/// The segment lines of a document: every non-directive line, in
/// order, blank lines kept as empty strings.
pub open spec fn segments_spec(lines: Seq<Seq<char>>) -> Seq<Seq<char>>
    decreases lines.len(),
{
    if lines.len() == 0 {
        Seq::empty()
    } else if line_is_directive(lines[0]) {
        segments_spec(lines.skip(1))
    } else {
        seq![lines[0]] + segments_spec(lines.skip(1))
    }
}

/// A segment reference that is already in local form — one with no
/// path separator, as a file name is — is its own local name, so the
/// rewrite leaves such a line unchanged when its file is present.
pub proof fn lemma_basename_of_local_name(l: Seq<char>)
    requires
        forall|i: int| 0 <= i < l.len() ==> l[i] != '/',
    ensures
        basename_spec(l) == l,
{
    crate::text::lemma_split_acc_no_sep(Seq::empty(), l, '/');
    assert(Seq::empty() + l =~= l);
}

/// Parsing preserves document order: the segment list is exactly the
/// subsequence of non-directive lines, every comment and directive
/// line removed and nothing else touched.
pub proof fn lemma_segments_preserve_order(lines: Seq<Seq<char>>)
    ensures
        segments_spec(lines) == lines.filter(|l: Seq<char>| !line_is_directive(l)),
    decreases lines.len(),
{
    reveal(Seq::filter);
    let pred = |l: Seq<char>| !line_is_directive(l);
    if lines.len() == 0 {
        assert(lines.filter(pred) == lines);
        assert(segments_spec(lines) =~= lines);
    } else {
        let head = seq![lines[0]];
        let tail = lines.skip(1);
        lemma_segments_preserve_order(tail);
        assert(lines =~= head + tail);
        Seq::filter_distributes_over_add(head, tail, pred);
        assert(head.drop_last() =~= Seq::<Seq<char>>::empty());
        assert(head.drop_last().filter(pred) == head.drop_last());
        if pred(lines[0]) {
            assert(head.filter(pred) =~= seq![lines[0]]);
            assert(seq![lines[0]] + segments_spec(tail) == (head + tail).filter(pred));
        } else {
            assert(head.filter(pred) =~= Seq::<Seq<char>>::empty());
            assert(segments_spec(tail) =~= Seq::<Seq<char>>::empty() + segments_spec(tail));
        }
    }
}

/// The stages of one run, in the order they must complete: the fetch
/// of the index, its parse, the key fetch (or the finding that no key
/// is declared), the drain of the segment pool, and the rewrite of the
/// cached playlist. No stage may start before the previous one is
/// done; in particular the rewrite is ordered after every worker of
/// the pool has terminated.
pub enum RunStage {
    Init,
    IndexFetched,
    Parsed,
    KeyReady,
    SegmentsDownloaded,
    Done,
}

/// The successor of each stage; a finished run stays finished.
pub fn advance_stage(s: &RunStage) -> (n: RunStage)
    ensures
        (match s {
            RunStage::Init => n is IndexFetched,
            RunStage::IndexFetched => n is Parsed,
            RunStage::Parsed => n is KeyReady,
            RunStage::KeyReady => n is SegmentsDownloaded,
            RunStage::SegmentsDownloaded => n is Done,
            RunStage::Done => n is Done,
        }),
{
    match s {
        RunStage::Init => RunStage::IndexFetched,
        RunStage::IndexFetched => RunStage::Parsed,
        RunStage::Parsed => RunStage::KeyReady,
        RunStage::KeyReady => RunStage::SegmentsDownloaded,
        RunStage::SegmentsDownloaded => RunStage::Done,
        RunStage::Done => RunStage::Done,
    }
}

/// The key fetch stage does work only when the parsed key URI is
/// non-empty.
pub fn needs_key(key_uri: &String) -> (b: bool)
    ensures
        b == (key_uri@.len() != 0),
{
    key_uri.as_str().unicode_len() != 0
}

/// The line starts with the directive marker `#`.
pub fn is_directive(l: &str) -> (b: bool)
    ensures
        b == line_is_directive(l@),
{
    l.unicode_len() > 0 && l.get_char(0) == '#'
}

/// Extract the first `URI=` attribute value of a key directive line.
pub fn key_line_uri(l: &str) -> (r: String)
    ensures
        r@ == key_uri_of_line(l@),
{
    let fields = split_str(l, ',');
    let ghost fv = views_of(fields@);
    let n = fields.len();
    let mut i: usize = 0;
    proof {
        reveal_strlit("URI=");
        assert("URI="@ =~= uri_prefix());
        assert(fv.skip(0) =~= fv);
    }
    while i < n
        invariant
            0 <= i <= n == fields@.len(),
            fv == views_of(fields@),
            fv == split_spec(l@, ','),
            "URI="@ =~= uri_prefix(),
            uri_of_fields(fv) == uri_of_fields(fv.skip(i as int)),
        decreases n - i,
    {
        proof {
            assert(fv.skip(i as int)[0] == fv[i as int]);
            assert(fv.skip(i as int).skip(1) =~= fv.skip(i + 1));
        }
        let field = &fields[i];
        if starts_with_str(field.as_str(), "URI=") {
            let len = field.as_str().unicode_len();
            proof {
                assert(fv[i as int].len() >= 4);
                assert(fv[i as int].subrange(4, len as int) =~= fv[i as int].skip(4));
                assert(uri_of_fields(fv.skip(i as int)) == strip_quotes_spec(
                    fv[i as int].skip(4),
                ));
            }
            return strip_quotes(field.as_str().substring_char(4, len));
        }
        i = i + 1;
    }
    proof {
        assert(fv.skip(n as int) =~= Seq::<Seq<char>>::empty());
    }
    String::new()
}

} // verus!
