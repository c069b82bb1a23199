use biliass::comment::{Comment, CommentData, CommentPosition};
use biliass::convert::{filter_comments, process_comments, sort_comments};
use biliass::error::{BiliassError, ParseError};
use biliass::filter::{BlockOptions, KeywordPattern};
use biliass::reader::protobuf::read_comments_from_protobuf;
use biliass::reader::special::parse_special_comment;
use biliass::reader::utils::{calculate_length, filter_bad_chars, unescape_newline};
use biliass::reader::xml::read_comments_from_xml;
use biliass::writer::utils::get_zoom_factor;

fn zoom() -> biliass::writer::utils::ZoomFactor {
    get_zoom_factor((891, 589), (1920, 1080))
}

const XML_DOC: &str = "<?xml version=\"1.0\" encoding=\"UTF-8\"?><i>\
<d p=\"1.5,1,25,16777215,1700000001,0,a,1\">scrolling</d>\
<d p=\"2.0,4,25,16711680,1700000002,0,b,2\">on top</d>\
<d p=\"2.5,5,25,255,1700000003,0,c,3\">at bottom</d>\
<d p=\"3.0,6,25,16777215,1700000004,0,d,4\">reversed</d>\
<d p=\"3.5,7,30,16777215,1700000005,0,e,5\">[0.2,0.3,\"1-0.5\",4,\"fly/naway\",0,0,0.8,0.9,500,100,null,\"Arial\"]</d>\
<d p=\"4.0,8,25,16777215,1700000006,0,f,6\">scripted meta</d>\
</i>";

#[test]
fn xml_reader_decodes_all_positions() {
    let opts = BlockOptions::default();
    let comments = read_comments_from_xml(XML_DOC, 25, &zoom(), &opts).unwrap();
    assert_eq!(comments.len(), 5);
    assert_eq!(comments[0].pos, CommentPosition::Scroll);
    assert_eq!(comments[0].timeline_ms, 1500);
    assert_eq!(comments[0].timestamp, 1700000001);
    assert_eq!(comments[0].content, "scrolling");
    assert_eq!(comments[1].pos, CommentPosition::Top);
    assert_eq!(comments[1].color, 16711680);
    assert_eq!(comments[2].pos, CommentPosition::Bottom);
    assert_eq!(comments[3].pos, CommentPosition::Reversed);
    assert_eq!(comments[4].pos, CommentPosition::Special);
    assert_eq!(comments[4].content, "fly\naway");
    // the meta entry (code 8) was dropped but still counted
    assert_eq!(comments[4].no, 4);
    match &comments[4].data {
        CommentData::Special(d) => {
            assert_eq!(d.from_alpha, 0);
            assert_eq!(d.to_alpha, 127);
            assert_eq!(d.lifetime_ms, 4000);
            assert_eq!(d.duration_ms, 500);
            assert_eq!(d.delay_ms, 100);
            assert_eq!(d.fontface, "Arial");
        },
        CommentData::Normal(_) => panic!("expected special payload"),
    }
}

#[test]
fn xml_reader_estimates_dimensions() {
    let opts = BlockOptions::default();
    let doc = "<?xml version=\"1.0\"?><i><d p=\"0.0,1,25,16777215,1,0,a,1\">ab/ncdef</d></i>";
    let comments = read_comments_from_xml(doc, 25, &zoom(), &opts).unwrap();
    assert_eq!(comments.len(), 1);
    match &comments[0].data {
        CommentData::Normal(d) => {
            // two lines at size 25 px, longest line 4 characters
            assert_eq!(d.height_cp, 5000);
            assert_eq!(d.width_cp, 10000);
        },
        CommentData::Special(_) => panic!("expected normal payload"),
    }
}

#[test]
fn xml_reader_requires_declaration() {
    let opts = BlockOptions::default();
    let doc = "<i><d p=\"1.0,1,25,16777215,1,0,a,1\">hi</d></i>";
    let err = read_comments_from_xml(doc, 25, &zoom(), &opts).unwrap_err();
    match err {
        BiliassError::ParseError(ParseError::Xml(_)) => {},
        _ => panic!("expected a structural parse error"),
    }
}

#[test]
fn xml_reader_rejects_unknown_version() {
    let opts = BlockOptions::default();
    let doc = "<?xml version=\"3.0\"?><i><d p=\"1.0,1,25,16777215,1,0,a,1\">hi</d></i>";
    assert!(read_comments_from_xml(doc, 25, &zoom(), &opts).is_err());
}

#[test]
fn xml_reader_later_layout_is_recognised_but_not_decoded() {
    let opts = BlockOptions::default();
    let doc = "<?xml version=\"2.0\"?><i><d p=\"0,0,1000,1,25,16777215,1,0\">hi</d></i>";
    let comments = read_comments_from_xml(doc, 25, &zoom(), &opts).unwrap();
    assert_eq!(comments.len(), 0);
}

#[test]
fn xml_reader_skips_malformed_entries_and_continues() {
    let opts = BlockOptions::default();
    let doc = "<?xml version=\"1.0\"?><i>\
<d p=\"oops,1,25,16777215,1,0,a,1\">bad</d>\
<d p=\"1.0,1,25,16777215,1,0,a,1\">good</d></i>";
    let comments = read_comments_from_xml(doc, 25, &zoom(), &opts).unwrap();
    assert_eq!(comments.len(), 1);
    assert_eq!(comments[0].content, "good");
    assert_eq!(comments[0].no, 1);
}

#[test]
fn xml_reader_honours_block_options() {
    let mut opts = BlockOptions::default();
    opts.block_scroll = true;
    let comments = read_comments_from_xml(XML_DOC, 25, &zoom(), &opts).unwrap();
    assert!(comments.iter().all(|c| c.pos != CommentPosition::Scroll));
}

#[test]
fn xml_reader_decodes_entities() {
    let opts = BlockOptions::default();
    let doc = "<?xml version=\"1.0\"?><i><d p=\"0.0,1,25,16777215,1,0,a,1\">a &amp;&lt;&gt; b</d></i>";
    let comments = read_comments_from_xml(doc, 25, &zoom(), &opts).unwrap();
    assert_eq!(comments[0].content, "a &<> b");
}

#[test]
fn xml_reader_decodes_numeric_character_references() {
    let opts = BlockOptions::default();
    let doc = "<?xml version=\"1.0\"?><i><d p=\"0.0,1,25,16777215,1,0,a,1\">&#65;&#x42;&#128512;</d></i>";
    let comments = read_comments_from_xml(doc, 25, &zoom(), &opts).unwrap();
    assert_eq!(comments[0].content, "AB\u{1F600}");
}

fn varint(mut v: u64, out: &mut Vec<u8>) {
    loop {
        let low = (v & 0x7f) as u8;
        v >>= 7;
        if v == 0 {
            out.push(low);
            break;
        }
        out.push(low | 0x80);
    }
}

fn proto_elem(progress: u64, mode: u64, fontsize: u64, color: u64, content: &str, ctime: u64) -> Vec<u8> {
    let mut body = Vec::new();
    body.push(0x10);
    varint(progress, &mut body);
    body.push(0x18);
    varint(mode, &mut body);
    body.push(0x20);
    varint(fontsize, &mut body);
    body.push(0x28);
    varint(color, &mut body);
    body.push(0x3a);
    varint(content.len() as u64, &mut body);
    body.extend_from_slice(content.as_bytes());
    body.push(0x40);
    varint(ctime, &mut body);
    let mut out = Vec::new();
    out.push(0x0a);
    varint(body.len() as u64, &mut out);
    out.extend_from_slice(&body);
    out
}

#[test]
fn protobuf_reader_decodes_entries() {
    let mut data = proto_elem(1500, 1, 25, 0xFFFFFF, "hello ⊕ world", 1700000001);
    data.extend_from_slice(&proto_elem(2500, 5, 25, 255, "bottom", 1700000002));
    let opts = BlockOptions::default();
    let comments = read_comments_from_protobuf(&data, 25, &zoom(), &opts).unwrap();
    assert_eq!(comments.len(), 2);
    assert_eq!(comments[0].timeline_ms, 1500);
    assert_eq!(comments[0].pos, CommentPosition::Scroll);
    assert_eq!(comments[0].content, "hello ⊕ world");
    assert_eq!(comments[0].timestamp, 1700000001);
    assert_eq!(comments[0].no, 0);
    assert_eq!(comments[1].pos, CommentPosition::Bottom);
    assert_eq!(comments[1].color, 255);
    assert_eq!(comments[1].no, 1);
}

#[test]
fn protobuf_reader_rejects_truncated_input() {
    let data = vec![0x0a, 0x20, 0x10];
    let opts = BlockOptions::default();
    match read_comments_from_protobuf(&data, 25, &zoom(), &opts) {
        Err(BiliassError::DecodeError(_)) => {},
        _ => panic!("expected a decode error"),
    }
}

#[test]
fn protobuf_reader_rejects_invalid_text_bytes() {
    // a content field holding invalid UTF-8
    let data = vec![0x0a, 0x05, 0x3a, 0x03, 0xff, 0xfe, 0xfd];
    let opts = BlockOptions::default();
    assert!(read_comments_from_protobuf(&data, 25, &zoom(), &opts).is_err());
}

#[test]
fn protobuf_reader_skips_meta_and_unknown_modes() {
    let mut data = proto_elem(1000, 8, 25, 0xFFFFFF, "meta", 1);
    data.extend_from_slice(&proto_elem(2000, 9, 25, 0xFFFFFF, "unknown", 2));
    data.extend_from_slice(&proto_elem(3000, 4, 25, 0xFFFFFF, "kept", 3));
    let opts = BlockOptions::default();
    let comments = read_comments_from_protobuf(&data, 25, &zoom(), &opts).unwrap();
    assert_eq!(comments.len(), 1);
    assert_eq!(comments[0].content, "kept");
    assert_eq!(comments[0].no, 2);
}

#[test]
fn keyword_patterns_filter_comments() {
    let pattern = KeywordPattern::new("sp+am").unwrap();
    assert!(pattern.is_match("this is spppam here"));
    assert!(!pattern.is_match("clean"));
    let mut opts = BlockOptions::default();
    opts.block_keyword_patterns.push(pattern);
    let comments = vec![
        plain(0, 1000, "very spam content"),
        plain(1, 2000, "fine"),
    ];
    let kept = filter_comments(comments, &opts);
    assert_eq!(kept.len(), 1);
    assert_eq!(kept[0].content, "fine");
}

#[test]
fn invalid_keyword_pattern_is_a_configuration_error() {
    assert!(KeywordPattern::new("(unclosed").is_err());
}

#[test]
fn colorful_filter_keeps_white_only() {
    let mut opts = BlockOptions::default();
    opts.block_colorful = true;
    let mut red = plain(0, 1000, "red");
    red.color = 0xFF0000;
    let kept = filter_comments(vec![red, plain(1, 2000, "white")], &opts);
    assert_eq!(kept.len(), 1);
    assert_eq!(kept[0].content, "white");
}

fn plain(no: u64, timeline_ms: i64, content: &str) -> Comment {
    Comment {
        timeline_ms,
        timestamp: 7,
        no,
        content: content.to_string(),
        pos: CommentPosition::Scroll,
        color: 0xFFFFFF,
        size_cp: 2500,
        data: CommentData::Normal(biliass::comment::NormalCommentData {
            height_cp: 2500,
            width_cp: 2500 * content.chars().count() as u64,
        }),
    }
}

#[test]
fn sort_is_total_and_stable_on_timeline() {
    let comments = vec![plain(2, 3000, "c"), plain(0, 1000, "a"), plain(1, 2000, "b")];
    let sorted = sort_comments(&comments);
    assert_eq!(sorted[0].content, "a");
    assert_eq!(sorted[1].content, "b");
    assert_eq!(sorted[2].content, "c");
}

#[test]
fn sort_breaks_timeline_ties_by_content() {
    let mut x = plain(0, 1000, "zz");
    let mut y = plain(0, 1000, "aa");
    x.no = 0;
    y.no = 0;
    let sorted = sort_comments(&vec![x, y]);
    assert_eq!(sorted[0].content, "aa");
}

#[test]
fn sanitiser_replaces_control_characters() {
    assert_eq!(filter_bad_chars("a\u{1}b\u{2028}c"), "a\u{fffd}b\u{fffd}c");
    assert_eq!(unescape_newline("x/ny"), "x\ny");
    assert_eq!(calculate_length("ab\nabcd\nx"), 4);
}

#[test]
fn special_payload_fields_have_documented_defaults() {
    let z = zoom();
    let (text, data) = parse_special_comment("[null,null,\"1-1\",null,\"hi\"]", &z).unwrap();
    assert_eq!(text, "hi");
    assert_eq!(data.rotate_y, 0);
    assert_eq!(data.rotate_z, 0);
    assert_eq!(data.from_alpha, 0);
    assert_eq!(data.to_alpha, 0);
    assert_eq!(data.lifetime_ms, 4_500_000);
    assert_eq!(data.duration_ms, 4_500_000);
    assert_eq!(data.delay_ms, 0);
    assert_eq!(data.fontface, "sans-serif");
    assert!(data.is_border);
    // defaults keep the end position at the start position
    assert_eq!(data.from_x_cp, data.to_x_cp);
    assert_eq!(data.from_y_cp, data.to_y_cp);
}

#[test]
fn special_payload_requires_text() {
    let z = zoom();
    assert!(parse_special_comment("[1,2,3]", &z).is_err());
    assert!(parse_special_comment("[0,0,\"1-1\",4,42]", &z).is_err());
    assert!(parse_special_comment("{\"not\":\"an array\"}", &z).is_err());
    assert!(parse_special_comment("garbage", &z).is_err());
}

#[test]
fn special_payload_decodes_unicode_escapes() {
    let z = zoom();
    let (text, _) = parse_special_comment("[0,0,\"1-1\",4,\"a\\u0041\\ud83d\\ude00b\"]", &z).unwrap();
    assert_eq!(text, "aA\u{1F600}b");
}

#[test]
fn special_payload_accepts_exponent_numbers() {
    let z = zoom();
    let (_, d1) = parse_special_comment("[0,0,\"1-1\",1.5e3,\"t\"]", &z).unwrap();
    // 1.5e3 seconds of lifetime
    assert_eq!(d1.lifetime_ms, 1_500_000);
    let (_, d2) = parse_special_comment("[0,0,\"1-1\",\"2E1\",\"t\"]", &z).unwrap();
    assert_eq!(d2.lifetime_ms, 20_000);
    let (_, d3) = parse_special_comment("[0,0,\"1-1\",\"4e-3\",\"t\"]", &z).unwrap();
    assert_eq!(d3.lifetime_ms, 4);
}

#[test]
fn special_payload_accepts_numeric_strings() {
    let z = zoom();
    let (_, d1) = parse_special_comment("[\"0.5\",\"0.5\",\"1-1\",4,\"t\"]", &z).unwrap();
    let (_, d2) = parse_special_comment("[0.5,0.5,\"1-1\",4,\"t\"]", &z).unwrap();
    assert_eq!(d1.from_x_cp, d2.from_x_cp);
    assert_eq!(d1.from_y_cp, d2.from_y_cp);
}

#[test]
fn end_to_end_output_structure() {
    let opts = BlockOptions::default();
    let comments = read_comments_from_xml(XML_DOC, 25, &zoom(), &opts).unwrap();
    let kept = filter_comments(comments, &opts);
    let sorted = sort_comments(&kept);
    let anims = vec![None; sorted.len()];
    let out = process_comments(
        &sorted, &anims, 1920, 1080, &zoom(), 1000, "sans-serif", 25, 800, 8000, 5000, false,
    )
    .unwrap();
    // exactly one header block
    assert!(out.starts_with("[Script Info]"));
    assert_eq!(out.matches("[Script Info]").count(), 1);
    assert_eq!(out.matches("[Events]").count(), 1);
    // one regular line per regular comment, one animation line for the
    // scripted comment, nothing for the meta entry
    assert_eq!(out.matches("Dialogue: 2,").count(), 4);
    assert_eq!(out.matches("Dialogue: -1,").count(), 1);
    assert!(out.contains("\\move("));
    assert!(out.contains("\\an8\\pos("));
    assert!(out.contains("\\an2\\pos("));
    assert!(out.contains("\\org(960, 540)"));
}

#[test]
fn reduced_mode_may_only_drop_lines() {
    let opts = BlockOptions::default();
    let comments = read_comments_from_xml(XML_DOC, 25, &zoom(), &opts).unwrap();
    let sorted = sort_comments(&comments);
    let anims = vec![None; sorted.len()];
    let full = process_comments(
        &sorted, &anims, 1920, 1080, &zoom(), 1000, "sans-serif", 25, 800, 8000, 5000, false,
    )
    .unwrap();
    let reduced = process_comments(
        &sorted, &anims, 1920, 1080, &zoom(), 1000, "sans-serif", 25, 800, 8000, 5000, true,
    )
    .unwrap();
    assert!(reduced.matches("Dialogue:").count() <= full.matches("Dialogue:").count());
}

#[test]
fn error_messages_name_their_kind() {
    let err = BiliassError::InvalidRegexError("bad".to_string());
    assert_eq!(err.to_message(), "InvalidRegexError: bad");
    let err2 = BiliassError::ParseError(ParseError::SpecialComment("oops".to_string()));
    assert_eq!(err2.to_message(), "ParseError: SpecialComment: oops");
}

#[test]
fn all_blank_line_keeps_both_runs_of_figure_spaces() {
    // a line of blanks only counts its run from both sides
    assert_eq!(biliass::writer::utils::ass_escape(" "), "\u{2007}\u{2007}");
}

#[test]
fn rotated_special_without_transform_is_skipped() {
    let z = zoom();
    let opts = BlockOptions::default();
    let doc = "<?xml version=\"1.0\"?><i>\
<d p=\"1.0,7,25,16777215,1,0,a,1\">[0.2,0.3,\"1-1\",4,\"spin\",30,40]</d></i>";
    let comments = read_comments_from_xml(doc, 25, &z, &opts).unwrap();
    assert_eq!(comments.len(), 1);
    let anims = vec![None];
    let out = process_comments(
        &comments, &anims, 1920, 1080, &z, 1000, "sans-serif", 25, 800, 8000, 5000, false,
    )
    .unwrap();
    // without a supplied transform a rotated scripted comment yields no line
    assert_eq!(out.matches("Dialogue:").count(), 0);
}
