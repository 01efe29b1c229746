use itcoolmcplang1c::protocol::{server_info_text, Content, ToolCallResult};

#[test]
fn text_names_server_version_and_data() {
    let version = "0.4.0 (2026-08-07, abc1234)";

    let text = server_info_text("itcoolmcpconf1c", version, Some("3154 объекта"));

    assert!(text.contains("itcoolmcpconf1c"));
    assert!(text.contains(version));
    assert!(text.contains("3154 объекта"));
}

#[test]
fn text_without_data_is_single_line() {
    let text = server_info_text("itcoolmcprun1c", "0.4.0 (2026-08-07, abc1234)", None);

    assert_eq!(text.lines().count(), 1);
    assert!(!text.contains("данные:"));
}

#[test]
fn server_info_text_is_exact() {
    assert_eq!(server_info_text("srv", "1.0", Some("d")), "srv 1.0\nданные: d");
    assert_eq!(server_info_text("srv", "1.0", None), "srv 1.0");
}

#[test]
fn found_result_carries_count_and_no_error() {
    let r = ToolCallResult::found("нет", 0);
    assert_eq!(r.is_error, Some(false));
    assert_eq!(r.result_count, Some(0));
    match &r.content[0] {
        Content::Text { text } => assert_eq!(text, "нет"),
        other => panic!("{:?}", other),
    }
}
