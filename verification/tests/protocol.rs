use server::protocol::{fell_out_of_bounds_reason, server_full_message};

#[test]
fn game_over_reason_text() {
    assert_eq!(fell_out_of_bounds_reason(), "fell out of bounds");
}

#[test]
fn server_full_text() {
    assert_eq!(server_full_message(), "Only one active player is supported in v1.");
}
