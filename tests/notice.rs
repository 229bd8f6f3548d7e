use async_chat::notice::{
    chat_line, decimal_string, history_replay_line, idle_timeout_line, joined_line, left_line,
    nick_replaced_line, nick_taken_line, renamed_line, user_not_found_line, whisper_from_line,
    whisper_to_line,
};

#[test]
fn decimal_forms() {
    assert_eq!(decimal_string(0), "0");
    assert_eq!(decimal_string(7), "7");
    assert_eq!(decimal_string(10), "10");
    assert_eq!(decimal_string(300), "300");
    assert_eq!(decimal_string(u64::MAX), u64::MAX.to_string());
}

#[test]
fn notice_lines() {
    assert_eq!(joined_line("al"), "-- al joined");
    assert_eq!(left_line("al"), "-- al left");
    assert_eq!(renamed_line("al", "bo"), "-- al -> bo");
    assert_eq!(chat_line("al", "hi there"), "[al] hi there");
    assert_eq!(whisper_from_line("al", "psst"), "[whisper from al] psst");
    assert_eq!(whisper_to_line("bo", "psst"), "[whisper to bo] psst");
    assert_eq!(history_replay_line("-- al joined"), "[history] -- al joined");
    assert_eq!(nick_taken_line("al"), "** Nick 'al' is taken");
    assert_eq!(nick_replaced_line("al", "1.2.3.4:5"), "** Nick 'al' is taken. You are 1.2.3.4:5");
    assert_eq!(user_not_found_line("zed"), "** User 'zed' not found");
    assert_eq!(idle_timeout_line(300), "** Idle timeout: no input for 300s, disconnecting.");
    assert_eq!(idle_timeout_line(5), "** Idle timeout: no input for 5s, disconnecting.");
}
