use peerchat::chat::{now_ts, timestamp, ChatRecord, Now};

fn is_clock(text: &str) -> bool {
    let parts: Vec<&str> = text.split(':').collect();
    let bounds = [23u64, 59, 60];
    parts.len() == 3
        && parts.iter().zip(bounds).all(|(part, most)| {
            part.len() == 2
                && part.chars().all(|c| c.is_ascii_digit())
                && part.parse::<u64>().unwrap() <= most
        })
}

#[test]
fn records_of_three_kinds() {
    let text = ChatRecord::text_at(true, "小明", "你好", 7, "12:34:56");
    assert_eq!(text.kind, "text");
    assert_eq!(text.name, "小明");
    assert_eq!(text.text, "你好");
    assert_eq!(text.ts, 7);
    assert_eq!(text.time, "12:34:56");
    assert!(text.outbound);
    let system = ChatRecord::system_at("[离线]", 8, "12:34:57");
    assert_eq!(system.kind, "system");
    assert_eq!(system.name, "");
    assert!(!system.outbound);
    let file = ChatRecord::file_at(false, "a.txt", "收到", 9, "12:34:58");
    assert_eq!(file.kind, "file");
    assert_eq!(file.name, "a.txt");
    assert!(!file.outbound);
}

#[test]
fn records_made_now_carry_the_time() {
    let text = ChatRecord::text(false, "小红", "在吗", 1);
    assert!(is_clock(&text.time));
    assert_eq!(text, ChatRecord::text_at(false, "小红", "在吗", 1, &text.time));
    let system = ChatRecord::system("x", 2);
    assert!(is_clock(&system.time));
    let file = ChatRecord::file(true, "f", "x", 3);
    assert!(is_clock(&file.time));
    assert_eq!(file.ts, 3);
}

#[test]
fn clock_readings() {
    assert_eq!(timestamp(None), 0);
    assert_eq!(timestamp(Some(1234)), 1234);
    assert_eq!(timestamp(Some((1u128 << 64) + 5)), 5);
    let now = Now::read();
    assert!(is_clock(&now.time));
    assert!(now.ms > 1_600_000_000_000);
    assert!(now_ts() >= now.ms);
}
