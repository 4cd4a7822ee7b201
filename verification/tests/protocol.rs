use orchestra_core::protocol::automation_bounded_text;
use orchestra_core::protocol::bounded_text;
use orchestra_core::protocol::MAX_PROJECTION_TEXT_BYTES;

#[test]
fn short_text_is_projected_unchanged() {
    assert_eq!(bounded_text("ready".into()), "ready");
    let projected = automation_bounded_text("ready".into());
    assert_eq!(projected.text, "ready");
    assert!(!projected.truncated);
}

#[test]
fn oversized_text_is_cut_at_a_character_and_marked() {
    let oversized = "é".repeat(MAX_PROJECTION_TEXT_BYTES);
    let projected = automation_bounded_text(oversized);
    assert!(projected.truncated);
    assert!(projected.text.len() <= MAX_PROJECTION_TEXT_BYTES + '…'.len_utf8());
    assert!(projected.text.ends_with('…'));
}
