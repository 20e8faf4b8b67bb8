use m3u8::is_valid_index;
use m3u8::m3u8_download::{advance_stage, is_directive, needs_key, M3U8Download, RunStage};
use m3u8::rewrite::{rewrite_index, rewrite_key_line, rewrite_line};

fn target() -> M3U8Download {
    M3U8Download::from(
        String::from("http://host/path/index.m3u8"),
        String::from("./output"),
        3,
    )
}

#[test]
fn from_keeps_arguments() {
    let d = target();
    assert_eq!(d.url, "http://host/path/index.m3u8");
    assert_eq!(d.path, "./output");
    assert_eq!(d.thread, 3);
}

#[test]
fn resolve_relative_reference() {
    let r = M3U8Download::parse_url("http://h/a/b/index.m3u8", "seg1.ts");
    assert_eq!(r, "http://h/a/b/seg1.ts");
}

#[test]
fn resolve_absolute_reference_passes_through() {
    let r = M3U8Download::parse_url("http://h/i.m3u8", "http://other/x.ts");
    assert_eq!(r, "http://other/x.ts");
}

#[test]
fn resolve_replaces_only_last_component() {
    let r = M3U8Download::parse_url("http://host/path/index.m3u8", "k.bin");
    assert_eq!(r, "http://host/path/k.bin");
}

#[test]
fn parse_name_takes_final_component() {
    assert_eq!(M3U8Download::parse_name("http://h/a/b/seg.ts"), "seg.ts");
    assert_eq!(M3U8Download::parse_name("seg.ts"), "seg.ts");
    assert_eq!(M3U8Download::parse_name(""), "");
}

#[test]
fn valid_index_signature() {
    assert!(is_valid_index("#EXTM3U\nseg.ts"));
    assert!(is_valid_index("#EXTM3U"));
    assert!(!is_valid_index("#EXTM3"));
    assert!(!is_valid_index(""));
    assert!(!is_valid_index("<html>error</html>"));
}

#[test]
fn parse_extracts_segments_in_order() {
    let d = target();
    let text = "#EXTM3U\n#EXT-X-VERSION:3\nseg0.ts\nseg1.ts\nseg2.ts\n#EXT-X-ENDLIST";
    let (key, segments) = d.parse(text);
    assert_eq!(key, "");
    assert_eq!(segments, vec!["seg0.ts", "seg1.ts", "seg2.ts"]);
}

#[test]
fn parse_preserves_blank_lines_as_empty_segments() {
    let d = target();
    let (_, segments) = d.parse("#EXTM3U\nseg0.ts\n\nseg1.ts\n");
    assert_eq!(segments, vec!["seg0.ts", "", "seg1.ts", ""]);
}

#[test]
fn parse_extracts_key_uri_with_quotes_stripped() {
    let d = target();
    let text = "#EXTM3U\n#EXT-X-KEY:METHOD=AES-128,URI=\"k.bin\"\nseg0.ts";
    let (key, segments) = d.parse(text);
    assert_eq!(key, "k.bin");
    assert_eq!(segments, vec!["seg0.ts"]);
}

#[test]
fn parse_last_key_directive_wins() {
    let d = target();
    let text = "#EXT-X-KEY:METHOD=AES-128,URI=\"first.bin\"\nseg0.ts\n#EXT-X-KEY:METHOD=AES-128,URI=\"second.bin\"\nseg1.ts";
    let (key, _) = d.parse(text);
    assert_eq!(key, "second.bin");
}

#[test]
fn parse_normalizes_crlf_line_endings() {
    let d = target();
    let (key, segments) =
        d.parse("#EXTM3U\r\n#EXT-X-KEY:METHOD=AES-128,URI=\"k.bin\"\r\nseg0.ts\r\nseg1.ts");
    assert_eq!(key, "k.bin");
    assert_eq!(segments, vec!["seg0.ts", "seg1.ts"]);
}

#[test]
fn parse_key_directive_without_uri_gives_empty_key() {
    let d = target();
    let (key, _) = d.parse("#EXT-X-KEY:METHOD=NONE\nseg0.ts");
    assert_eq!(key, "");
}

#[test]
fn parse_empty_text_is_single_blank_segment() {
    let d = target();
    let (key, segments) = d.parse("");
    assert_eq!(key, "");
    assert_eq!(segments, vec![""]);
}

#[test]
fn resolve_relative_against_host_root() {
    let r = M3U8Download::parse_url("http://h/i.m3u8", "seg.ts");
    assert_eq!(r, "http://h/seg.ts");
}

#[test]
fn resolve_base_without_separator_is_replaced_whole() {
    let r = M3U8Download::parse_url("index.m3u8", "seg.ts");
    assert_eq!(r, "seg.ts");
}

#[test]
fn directive_lines_are_recognized() {
    assert!(is_directive("#EXTM3U"));
    assert!(is_directive("#EXT-X-ENDLIST"));
    assert!(!is_directive("seg0.ts"));
    assert!(!is_directive(""));
}

#[test]
fn rewrite_local_segment_line_stays_local() {
    let files = vec![String::from("a.ts")];
    assert_eq!(rewrite_line("a.ts", &files), "a.ts");
}

#[test]
fn rewrite_remote_segment_without_local_file_is_unchanged() {
    let files: Vec<String> = Vec::new();
    assert_eq!(rewrite_line("http://h/b.ts", &files), "http://h/b.ts");
}

#[test]
fn rewrite_remote_segment_with_local_file_becomes_local_name() {
    let files = vec![String::from("b.ts")];
    assert_eq!(rewrite_line("http://h/b.ts", &files), "b.ts");
}

#[test]
fn rewrite_key_line_points_at_local_key() {
    assert_eq!(
        rewrite_key_line("#EXT-X-KEY:METHOD=AES-128,URI=\"k.bin\""),
        "#EXT-X-KEY:METHOD=AES-128,URI=\"key.m3u8\""
    );
}

#[test]
fn rewrite_key_line_keeps_fields_after_uri() {
    assert_eq!(
        rewrite_key_line("#EXT-X-KEY:METHOD=AES-128,URI=\"k.bin\",IV=0x1"),
        "#EXT-X-KEY:METHOD=AES-128,URI=\"key.m3u8\",IV=0x1"
    );
}

#[test]
fn rewrite_key_line_without_uri_is_unchanged() {
    assert_eq!(
        rewrite_key_line("#EXT-X-KEY:METHOD=NONE"),
        "#EXT-X-KEY:METHOD=NONE"
    );
}

#[test]
fn rewrite_leaves_other_directives_alone() {
    let files = vec![String::from("a.ts")];
    assert_eq!(rewrite_line("#EXT-X-VERSION:3", &files), "#EXT-X-VERSION:3");
}

#[test]
fn rewrite_index_end_to_end_document() {
    let text = "#EXTM3U\n#EXT-X-KEY:METHOD=AES-128,URI=\"k.bin\"\nseg0.ts\nseg1.ts\n";
    let files = vec![
        String::from("seg0.ts"),
        String::from("seg1.ts"),
        String::from("key.m3u8"),
    ];
    let rewritten = rewrite_index(text, &files);
    assert_eq!(
        rewritten,
        "#EXTM3U\n#EXT-X-KEY:METHOD=AES-128,URI=\"key.m3u8\"\nseg0.ts\nseg1.ts\n"
    );
}

#[test]
fn rewrite_index_leaves_missing_segments_remote() {
    let text = "#EXTM3U\nhttp://h/a.ts\nhttp://h/b.ts";
    let files = vec![String::from("a.ts")];
    let rewritten = rewrite_index(text, &files);
    assert_eq!(rewritten, "#EXTM3U\na.ts\nhttp://h/b.ts");
}

#[test]
fn run_stages_advance_in_order() {
    let s0 = RunStage::Init;
    let s1 = advance_stage(&s0);
    assert!(matches!(s1, RunStage::IndexFetched));
    let s2 = advance_stage(&s1);
    assert!(matches!(s2, RunStage::Parsed));
    let s3 = advance_stage(&s2);
    assert!(matches!(s3, RunStage::KeyReady));
    let s4 = advance_stage(&s3);
    assert!(matches!(s4, RunStage::SegmentsDownloaded));
    let s5 = advance_stage(&s4);
    assert!(matches!(s5, RunStage::Done));
    assert!(matches!(advance_stage(&s5), RunStage::Done));
}

#[test]
fn key_stage_works_only_with_a_key_uri() {
    assert!(needs_key(&String::from("k.bin")));
    assert!(!needs_key(&String::from("")));
}
