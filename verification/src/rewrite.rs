//! Rewriting a cached playlist for local playback: the key directive's
//! URI attribute is pointed at the local key file, and every segment
//! line whose derived local name is among the files already on disk is
//! replaced by that name. All other lines pass through unchanged, in
//! their original order.

use crate::m3u8_download::{
    basename_spec, is_directive, key_directive_prefix, line_is_directive, line_is_key, lines_spec,
    uri_prefix, M3U8Download,
};
use crate::text::{
    contains_str, has_prefix, join_spec, join_strs, normalize_newlines, split_spec, split_str,
    starts_with_str, vec_contains_string, views_of,
};
use vstd::prelude::*;

verus! {

/// The replacement URI attribute, pointing at the locally stored key.
pub open spec fn key_local_field() -> Seq<char> {
    seq!['U', 'R', 'I', '=', '"', 'k', 'e', 'y', '.', 'm', '3', 'u', '8', '"']
}

/// `fields` with its first `URI=` attribute replaced by the local key
/// reference; unchanged when no field carries one.
pub open spec fn replace_uri_fields(fields: Seq<Seq<char>>) -> Seq<Seq<char>>
    decreases fields.len(),
{
    if fields.len() == 0 {
        Seq::empty()
    } else if has_prefix(fields[0], uri_prefix()) {
        seq![key_local_field()] + fields.skip(1)
    } else {
        seq![fields[0]] + replace_uri_fields(fields.skip(1))
    }
}

/// A key directive line, re-pointed at the local key file.
pub open spec fn rewrite_key_line_spec(l: Seq<char>) -> Seq<char> {
    join_spec(replace_uri_fields(split_spec(l, ',')), ',')
}

/// One line of the rewritten playlist: key directives are re-pointed,
/// other directives pass through, and a segment line becomes its local
/// name exactly when that name is among `files`.
pub open spec fn rewrite_line_spec(l: Seq<char>, files: Seq<String>) -> Seq<char> {
    if line_is_key(l) {
        rewrite_key_line_spec(l)
    } else if line_is_directive(l) {
        l
    } else if contains_str(files, basename_spec(l)) {
        basename_spec(l)
    } else {
        l
    }
}

/// Every line rewritten, order preserved.
pub open spec fn rewrite_lines_spec(lines: Seq<Seq<char>>, files: Seq<String>) -> Seq<Seq<char>> {
    lines.map_values(|l: Seq<char>| rewrite_line_spec(l, files))
}

/// The whole rewritten document.
pub open spec fn rewrite_index_spec(text: Seq<char>, files: Seq<String>) -> Seq<char> {
    join_spec(rewrite_lines_spec(lines_spec(text), files), '\n')
}

/// The rewrite never reorders, drops or adds a line: the rewritten
/// document has exactly one line for each original line, in place.
pub proof fn lemma_rewrite_preserves_lines(lines: Seq<Seq<char>>, files: Seq<String>)
    ensures
        rewrite_lines_spec(lines, files).len() == lines.len(),
        forall|i: int|
            0 <= i < lines.len() ==> rewrite_lines_spec(lines, files)[i] == rewrite_line_spec(
                lines[i],
                files,
            ),
{
}

/// Replace the first `URI=` attribute of a key directive line with a
/// reference to the local key file.
pub fn rewrite_key_line(l: &str) -> (r: String)
    ensures
        r@ == rewrite_key_line_spec(l@),
{
    let fields = split_str(l, ',');
    let ghost fv = views_of(fields@);
    let n = fields.len();
    let mut out: Vec<String> = Vec::new();
    let mut replaced = false;
    let mut i: usize = 0;
    proof {
        reveal_strlit("URI=");
        assert("URI="@ =~= uri_prefix());
        reveal_strlit("URI=\"key.m3u8\"");
        assert("URI=\"key.m3u8\""@ =~= key_local_field());
        assert(fv.skip(0) =~= fv);
        assert(views_of(out@) + replace_uri_fields(fv) =~= replace_uri_fields(fv));
    }
    while i < n
        invariant
            0 <= i <= n == fields@.len(),
            fv == views_of(fields@),
            fv == split_spec(l@, ','),
            "URI="@ =~= uri_prefix(),
            "URI=\"key.m3u8\""@ =~= key_local_field(),
            replaced ==> replace_uri_fields(fv) == views_of(out@) + fv.skip(i as int),
            !replaced ==> replace_uri_fields(fv) == views_of(out@) + replace_uri_fields(
                fv.skip(i as int),
            ),
        decreases n - i,
    {
        proof {
            assert(fv.skip(i as int)[0] == fv[i as int]);
            assert(fv.skip(i as int).skip(1) =~= fv.skip(i + 1));
        }
        let field = &fields[i];
        if !replaced && starts_with_str(field.as_str(), "URI=") {
            out.push(String::from_str("URI=\"key.m3u8\""));
            replaced = true;
            proof {
                assert(views_of(out@) =~= views_of(out@.drop_last()) + seq![key_local_field()]);
                assert(views_of(out@.drop_last()) + (seq![key_local_field()] + fv.skip(i + 1))
                    =~= views_of(out@) + fv.skip(i + 1));
            }
        } else {
            out.push(field.clone());
            proof {
                assert(views_of(out@) =~= views_of(out@.drop_last()) + seq![fv[i as int]]);
                assert(views_of(out@.drop_last()) + (seq![fv[i as int]] + fv.skip(i + 1)) =~= views_of(
                    out@,
                ) + fv.skip(i + 1));
                assert(views_of(out@.drop_last()) + (seq![fv[i as int]] + replace_uri_fields(
                    fv.skip(i + 1),
                )) =~= views_of(out@) + replace_uri_fields(fv.skip(i + 1)));
            }
        }
        i = i + 1;
    }
    proof {
        assert(fv.skip(n as int) =~= Seq::<Seq<char>>::empty());
        assert(replace_uri_fields(Seq::empty()) =~= Seq::<Seq<char>>::empty());
        assert(views_of(out@) + Seq::<Seq<char>>::empty() =~= views_of(out@));
        assert(views_of(out@) =~= replace_uri_fields(fv));
        reveal_strlit(",");
        assert(","@ =~= seq![',']);
    }
    join_strs(&out, ',', ",")
}

/// Rewrite one playlist line, given the names of the files already in
/// the output directory.
pub fn rewrite_line(l: &str, files: &Vec<String>) -> (r: String)
    ensures
        r@ == rewrite_line_spec(l@, files@),
{
    proof {
        reveal_strlit("#EXT-X-KEY:");
        assert("#EXT-X-KEY:"@ =~= key_directive_prefix());
    }
    if starts_with_str(l, "#EXT-X-KEY:") {
        rewrite_key_line(l)
    } else if is_directive(l) {
        String::from_str(l)
    } else {
        let name = M3U8Download::parse_name(l);
        if vec_contains_string(files, &name) {
            name
        } else {
            String::from_str(l)
        }
    }
}

/// Rewrite a cached playlist so it plays back from local files: the
/// key directive points at the local key, and each segment line whose
/// local name is in `files` is replaced by that name.
pub fn rewrite_index(text: &str, files: &Vec<String>) -> (r: String)
    ensures
        r@ == rewrite_index_spec(text@, files@),
{
    let normalized = normalize_newlines(text);
    let rows = split_str(normalized.as_str(), '\n');
    let ghost lines = lines_spec(text@);
    proof {
        assert(views_of(rows@) == lines);
    }
    let n = rows.len();
    let mut out: Vec<String> = Vec::new();
    let mut i: usize = 0;
    proof {
        assert(views_of(out@) =~= rewrite_lines_spec(lines.take(0), files@));
    }
    while i < n
        invariant
            0 <= i <= n == rows@.len(),
            views_of(rows@) == lines,
            views_of(out@) == rewrite_lines_spec(lines.take(i as int), files@),
        decreases n - i,
    {
        proof {
            assert(lines[i as int] == rows@[i as int]@);
        }
        let row = rewrite_line(rows[i].as_str(), files);
        out.push(row);
        proof {
            assert(views_of(out@) =~= rewrite_lines_spec(lines.take(i as int), files@).push(
                rewrite_line_spec(lines[i as int], files@),
            ));
            assert(rewrite_lines_spec(lines.take(i + 1), files@) =~= rewrite_lines_spec(
                lines.take(i as int),
                files@,
            ).push(rewrite_line_spec(lines[i as int], files@)));
        }
        i = i + 1;
    }
    proof {
        assert(lines.take(n as int) =~= lines);
        reveal_strlit("\n");
        assert("\n"@ =~= seq!['\n']);
    }
    join_strs(&out, '\n', "\n")
}

} // verus!
