use lrlex::{write_action, WriteAction};

#[test]
fn missing_target_is_written() {
    assert_eq!(write_action(None, "mod a_l {}"), WriteAction::Overwrite);
    assert_eq!(write_action(None, ""), WriteAction::Overwrite);
}

#[test]
fn target_with_the_same_text_is_kept() {
    assert_eq!(write_action(Some("mod a_l {}"), "mod a_l {}"), WriteAction::Keep);
    assert_eq!(write_action(Some(""), ""), WriteAction::Keep);
}

#[test]
fn target_with_other_text_is_written() {
    assert_eq!(write_action(Some("mod a_l {}"), "mod b_l {}"), WriteAction::Overwrite);
    assert_eq!(write_action(Some("mod a_l {}"), "mod a_l {}\n"), WriteAction::Overwrite);
    assert_eq!(write_action(Some("mod a_l {}\n"), "mod a_l {}"), WriteAction::Overwrite);
    assert_eq!(write_action(Some(""), "x"), WriteAction::Overwrite);
}
