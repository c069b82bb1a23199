use biliass::comment::{Comment, CommentData, CommentPosition, NormalCommentData};
use biliass::writer::rows::{init_rows, test_free_rows};
use biliass::writer::ass::write_normal_comment;

fn scroll(no: u64, timeline_ms: i64, width_cp: u64, height_cp: u64) -> Comment {
    Comment {
        timeline_ms,
        timestamp: 0,
        no,
        content: "x".to_string(),
        pos: CommentPosition::Scroll,
        color: 0xFFFFFF,
        size_cp: 2500,
        data: CommentData::Normal(NormalCommentData { height_cp, width_cp }),
    }
}

fn top(no: u64, timeline_ms: i64) -> Comment {
    Comment {
        timeline_ms,
        timestamp: 0,
        no,
        content: "x".to_string(),
        pos: CommentPosition::Top,
        color: 0xFFFFFF,
        size_cp: 2500,
        data: CommentData::Normal(NormalCommentData { height_cp: 100, width_cp: 2500 }),
    }
}

#[test]
fn disjoint_scroll_windows_share_the_row() {
    // both comments are 640 px wide on a 640 px stage with an 8 s marquee:
    // the travel windows of t=0 and t=10s do not overlap
    let comments = vec![scroll(0, 0, 64000, 2500), scroll(1, 10000, 64000, 2500)];
    let mut rows = init_rows(4, 481);
    let line1 = write_normal_comment(
        &mut rows, &comments, 0, 640, 480, 0, 25, 8000, 5000, "biliass", false,
    );
    assert!(line1.contains("\\move(640, 0, -640, 0)"));
    // the second comment still finds its full span at row zero
    let free = test_free_rows(&rows, &comments, 1, 0, 640, 480, 0, 8000, 5000);
    assert_eq!(free, 25);
    let line2 = write_normal_comment(
        &mut rows, &comments, 1, 640, 480, 0, 25, 8000, 5000, "biliass", false,
    );
    assert!(line2.contains("\\move(640, 0, -640, 0)"));
}

#[test]
fn overlapping_scroll_windows_take_different_rows() {
    // t=0 and t=1s with the same travel time: still on screen together
    let comments = vec![scroll(0, 0, 64000, 2500), scroll(1, 1000, 64000, 2500)];
    let mut rows = init_rows(4, 481);
    let line1 = write_normal_comment(
        &mut rows, &comments, 0, 640, 480, 0, 25, 8000, 5000, "biliass", false,
    );
    assert!(line1.contains("\\move(640, 0, -640, 0)"));
    let free = test_free_rows(&rows, &comments, 1, 0, 640, 480, 0, 8000, 5000);
    assert_eq!(free, 0);
    let line2 = write_normal_comment(
        &mut rows, &comments, 1, 640, 480, 0, 25, 8000, 5000, "biliass", false,
    );
    assert!(line2.contains("\\move(640, 25, -640, 25)"));
    assert!(!line2.contains("\\move(640, 0, -640, 0)"));
}

#[test]
fn busy_top_rows_force_place_on_earliest_occupant() {
    // a three-row region; occupants placed at rows 0, 1, 2 with
    // timelines 5 s, 1 s, 3 s, all still on screen at 6 s
    let comments = vec![top(0, 5000), top(1, 1000), top(2, 3000), top(3, 6000)];
    let mut rows = init_rows(4, 4);
    for i in 0..3 {
        let line = write_normal_comment(
            &mut rows, &comments, i, 640, 480, 477, 25, 8000, 10000, "biliass", false,
        );
        assert!(!line.is_empty());
    }
    // rows 0..2 are scanned by the fallback; the earliest timeline (1 s)
    // sits at row 1, which maps to vertical position 3 - 1 = 2
    let line = write_normal_comment(
        &mut rows, &comments, 3, 640, 480, 477, 25, 8000, 10000, "biliass", false,
    );
    assert!(line.contains("\\an2\\pos(320, 2)"));
}

#[test]
fn busy_top_rows_drop_in_reduced_mode() {
    let comments = vec![top(0, 5000), top(1, 1000), top(2, 3000), top(3, 6000)];
    let mut rows = init_rows(4, 4);
    for i in 0..3 {
        write_normal_comment(
            &mut rows, &comments, i, 640, 480, 477, 25, 8000, 10000, "biliass", false,
        );
    }
    let line = write_normal_comment(
        &mut rows, &comments, 3, 640, 480, 477, 25, 8000, 10000, "biliass", true,
    );
    assert_eq!(line, "");
}

#[test]
fn font_size_override_needs_more_than_one_pixel() {
    // default 25 px; a comment at 26 px differs by exactly one pixel
    // and keeps the default, 26.01 px gets the override
    let mut c = scroll(0, 0, 2600, 100);
    c.size_cp = 2600;
    let comments = vec![c];
    let mut rows = init_rows(4, 481);
    let line = write_normal_comment(
        &mut rows, &comments, 0, 640, 480, 0, 25, 8000, 5000, "biliass", false,
    );
    assert!(!line.contains("\\fs"));
    let mut c2 = scroll(0, 0, 2601, 100);
    c2.size_cp = 2601;
    let comments2 = vec![c2];
    let mut rows2 = init_rows(4, 481);
    let line2 = write_normal_comment(
        &mut rows2, &comments2, 0, 640, 480, 0, 25, 8000, 5000, "biliass", false,
    );
    assert!(line2.contains("\\fs26"));
}
