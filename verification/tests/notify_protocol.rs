use aw_tauri::notify::NotifyParser;
use aw_tauri::notify::is_delimiter_line;
use aw_tauri::notify::is_output_only_rejection;
use aw_tauri::notify::notify_spawn_args;

fn dashes(n: usize) -> String {
    "-".repeat(n)
}

#[test]
fn one_notification_per_frame() {
    // the dash-framed block becomes exactly one notification
    let mut p = NotifyParser::new();
    assert!(p.feed_line(&dashes(50)).is_none());
    assert!(p.feed_line("Hello").is_none());
    assert!(p.feed_line("World").is_none());
    let n = p.feed_line(&dashes(50)).expect("the closing delimiter dispatches");
    assert_eq!(n.title, "ActivityWatch");
    assert_eq!(n.body, "Hello\nWorld");
    // and the buffer is gone
    assert!(p.feed_line(&dashes(50)).is_none());
    assert!(p.feed_line(&dashes(50)).is_none());
}

#[test]
fn forty_nine_or_fifty_one_dashes_do_not_delimit() {
    assert!(!is_delimiter_line(&dashes(49)));
    assert!(is_delimiter_line(&dashes(50)));
    assert!(!is_delimiter_line(&dashes(51)));
    let mut p = NotifyParser::new();
    p.feed_line(&dashes(50));
    p.feed_line(&dashes(49));
    p.feed_line(&dashes(51));
    let n = p.feed_line(&dashes(50)).expect("only the 50-dash lines frame");
    assert_eq!(n.body, format!("{}\n{}", dashes(49), dashes(51)));
}

#[test]
fn blank_lines_inside_a_frame_are_dropped() {
    let mut p = NotifyParser::new();
    p.feed_line(&dashes(50));
    p.feed_line("One");
    p.feed_line("");
    p.feed_line("   ");
    p.feed_line("Two");
    let n = p.feed_line(&dashes(50)).unwrap();
    assert_eq!(n.body, "One\nTwo");
}

#[test]
fn output_outside_frames_is_ignored() {
    let mut p = NotifyParser::new();
    assert!(p.feed_line("chatter").is_none());
    p.feed_line(&dashes(50));
    let out = p.feed_line(&dashes(50));
    // an empty frame dispatches nothing
    assert!(out.is_none());
}

#[test]
fn notify_args_always_lead_with_output_only() {
    assert_eq!(notify_spawn_args(None, 5600), vec![String::from("--output-only")]);
    assert_eq!(
        notify_spawn_args(None, 5601),
        vec![String::from("--output-only"), String::from("--port"), String::from("5601")]
    );
    let custom = vec![String::from("--quiet")];
    assert_eq!(
        notify_spawn_args(Some(&custom), 5600),
        vec![String::from("--output-only"), String::from("--quiet")]
    );
}

#[test]
fn output_only_rejection_is_detected() {
    assert!(is_output_only_rejection("Error: No such option: --output-only"));
    assert!(!is_output_only_rejection("connection refused"));
}
