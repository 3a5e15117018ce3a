use crypto_tran::session::{channel_step, outgoing_text, ChannelStep, MAX_MESSAGES};

#[test]
fn lines_are_sent_until_quit() {
    assert_eq!(channel_step("hello", 0), ChannelStep::Send);
    assert_eq!(channel_step("quit", 0), ChannelStep::Close);
    assert_eq!(channel_step("quit!", 0), ChannelStep::Send);
    assert_eq!(channel_step("Quit", 2), ChannelStep::Send);
}

#[test]
fn the_channel_closes_at_the_message_limit() {
    assert_eq!(MAX_MESSAGES, 5);
    assert_eq!(channel_step("hello", 4), ChannelStep::Send);
    assert_eq!(channel_step("hello", 5), ChannelStep::Close);
    assert_eq!(channel_step("", 9), ChannelStep::Close);
}

#[test]
fn outgoing_text_names_the_peer() {
    assert_eq!(outgoing_text("peer1", "hi there"), "peer1: hi there");
    assert_eq!(outgoing_text("", ""), ": ");
}
