//! Chat messages, their acknowledgements, and the records of a conversation.
use vstd::prelude::*;
use crate::table::Dup;
use crate::text::is_digit;

verus! {

/// A chat message, before it is sealed into an envelope.
#[derive(Debug, PartialEq)]
pub struct ChatMsg {
    /// Tells the message from all others of its sender; the acknowledgement names it.
    pub msg_id: u64,
    /// Nickname of the sender.
    pub nickname: String,
    /// What is said.
    pub text: String,
}

/// What a [`ChatMsg`] says.
#[verifier::ext_equal]
pub struct ChatMsgModel {
    pub msg_id: u64,
    pub nickname: Seq<char>,
    pub text: Seq<char>,
}

impl View for ChatMsg {
    type V = ChatMsgModel;

    open spec fn view(&self) -> ChatMsgModel {
        ChatMsgModel { msg_id: self.msg_id, nickname: self.nickname@, text: self.text@ }
    }
}

impl Dup for ChatMsg {
    fn dup(&self) -> (copy: Self) {
        ChatMsg { msg_id: self.msg_id, nickname: self.nickname.clone(), text: self.text.clone() }
    }
}

/// The acknowledgement of a chat message.
#[derive(Debug, Clone, Copy, PartialEq)]
pub struct ChatAck {
    /// The message that is acknowledged.
    pub msg_id: u64,
    /// Whether it came through and could be opened.
    pub ok: bool,
}

/// One line of a conversation.
#[derive(Debug, PartialEq)]
pub struct ChatRecord {
    /// Sent by this node, not to it.
    pub outbound: bool,
    /// `"text"`, `"system"` or `"file"`.
    pub kind: String,
    /// Who speaks in a text, the file's name for a file, empty for a system notice.
    pub name: String,
    /// What is shown.
    pub text: String,
    /// Serves to order the records.
    pub ts: u64,
    /// The local time at which the record was made; empty in old records.
    pub time: String,
}

/// What a [`ChatRecord`] says.
#[verifier::ext_equal]
pub struct RecordModel {
    pub outbound: bool,
    pub kind: Seq<char>,
    pub name: Seq<char>,
    pub text: Seq<char>,
    pub ts: u64,
    pub time: Seq<char>,
}

impl View for ChatRecord {
    type V = RecordModel;

    open spec fn view(&self) -> RecordModel {
        RecordModel {
            outbound: self.outbound,
            kind: self.kind@,
            name: self.name@,
            text: self.text@,
            ts: self.ts,
            time: self.time@,
        }
    }
}

impl Dup for ChatRecord {
    fn dup(&self) -> (copy: Self) {
        ChatRecord {
            outbound: self.outbound,
            kind: self.kind.clone(),
            name: self.name.clone(),
            text: self.text.clone(),
            ts: self.ts,
            time: self.time.clone(),
        }
    }
}

/// A text that somebody said.
pub open spec fn text_record(
    outbound: bool,
    nickname: Seq<char>,
    text: Seq<char>,
    ts: u64,
    time: Seq<char>,
) -> RecordModel {
    RecordModel { outbound, kind: "text"@, name: nickname, text, ts, time }
}

/// A notice of the program itself; it has no direction.
pub open spec fn system_record(text: Seq<char>, ts: u64, time: Seq<char>) -> RecordModel {
    RecordModel { outbound: false, kind: "system"@, name: Seq::empty(), text, ts, time }
}

/// An event of a file transfer.
pub open spec fn file_record(
    outbound: bool,
    filename: Seq<char>,
    text: Seq<char>,
    ts: u64,
    time: Seq<char>,
) -> RecordModel {
    RecordModel { outbound, kind: "file"@, name: filename, text, ts, time }
}

/// The text is a time of day: hours up to 23, minutes up to 59 and seconds up to 60, which a leap
/// second shows, of two digits each, with colons between them.
pub open spec fn is_clock(text: Seq<char>) -> bool {
    &&& text.len() == 8
    &&& is_digit(text[0]) && is_digit(text[1])
    &&& text[0] <= '1' || (text[0] == '2' && text[1] <= '3')
    &&& text[2] == ':'
    &&& is_digit(text[3]) && is_digit(text[4])
    &&& text[3] <= '5'
    &&& text[5] == ':'
    &&& is_digit(text[6]) && is_digit(text[7])
    &&& text[6] <= '5' || (text[6] == '6' && text[7] == '0')
}

/// `chrono`'s `Local::now`, formatted with `%H:%M:%S`. What the clock shows is not fixed; claimed
/// is that it is a time of day: the format has three fields of two digits and two colons, and the
/// hour, the minute and the second of a time of day, a leap second included, are bounded. The clock is not to be set before the Unix epoch, where `chrono` gives up.
#[verifier::external_body]
fn now_time() -> (time: String)
    ensures
        is_clock(time@),
{
    chrono::Local::now().format("%H:%M:%S").to_string()
}

/// `std`'s `SystemTime::now` as milliseconds since the Unix epoch; nothing where the clock is set
/// before it. Nothing is claimed of what the clock shows.
#[verifier::external_body]
fn epoch_millis() -> (ms: Option<u128>) {
    std::time::SystemTime::now().duration_since(std::time::UNIX_EPOCH).map(|d| d.as_millis()).ok()
}

/// The timestamp of a clock reading: its low 64 bits, and zero where there is none.
pub open spec fn ts_of(ms: Option<u128>) -> u64 {
    match ms {
        Some(n) => n as u64,
        None => 0,
    }
}

/// The timestamp of a clock reading.
pub fn timestamp(ms: Option<u128>) -> (ts: u64)
    ensures
        ts == ts_of(ms),
{
    match ms {
        Some(n) => n as u64,
        None => 0,
    }
}

/// The present, in milliseconds since the Unix epoch; only to order records. What the clock shows
/// is not fixed, and nothing is claimed of it; what becomes of a reading of the clock is stated at
/// [`timestamp`].
pub fn now_ts() -> (ts: u64) {
    let ms = epoch_millis();
    timestamp(ms)
}

/// A reading of the clock: what records made now carry.
#[derive(Debug, PartialEq)]
pub struct Now {
    /// The local time of day, for display.
    pub time: String,
    /// Milliseconds since the Unix epoch, for ordering.
    pub ms: u64,
}

/// What a [`Now`] says.
#[verifier::ext_equal]
pub struct NowModel {
    pub time: Seq<char>,
    pub ms: u64,
}

impl View for Now {
    type V = NowModel;

    open spec fn view(&self) -> NowModel {
        NowModel { time: self.time@, ms: self.ms }
    }
}

impl Now {
    /// Reads the clock.
    pub fn read() -> (now: Now)
        ensures
            is_clock(now@.time),
    {
        Now { time: now_time(), ms: now_ts() }
    }
}

impl ChatRecord {
    /// A text, made at the given time.
    pub fn text_at(outbound: bool, nickname: &str, text: &str, ts: u64, time: &str) -> (record: Self)
        ensures
            record@ == text_record(outbound, nickname@, text@, ts, time@),
            record.outbound == outbound,
            record.kind@ == "text"@,
            record.name@ == nickname@,
            record.text@ == text@,
            record.ts == ts,
            record.time@ == time@,
    {
        ChatRecord {
            outbound,
            kind: "text".to_owned(),
            name: nickname.to_owned(),
            text: text.to_owned(),
            ts,
            time: time.to_owned(),
        }
    }

    /// A system notice, made at the given time.
    pub fn system_at(text: &str, ts: u64, time: &str) -> (record: Self)
        ensures
            record@ == system_record(text@, ts, time@),
            record.kind@ == "system"@,
            record.name@.len() == 0,
            record.text@ == text@,
            record.ts == ts,
            record.time@ == time@,
    {
        ChatRecord {
            outbound: false,
            kind: "system".to_owned(),
            name: String::new(),
            text: text.to_owned(),
            ts,
            time: time.to_owned(),
        }
    }

    /// A file transfer record, made at the given time.
    pub fn file_at(outbound: bool, filename: &str, text: &str, ts: u64, time: &str) -> (record: Self)
        ensures
            record@ == file_record(outbound, filename@, text@, ts, time@),
            record.outbound == outbound,
            record.kind@ == "file"@,
            record.name@ == filename@,
            record.text@ == text@,
            record.ts == ts,
            record.time@ == time@,
    {
        ChatRecord {
            outbound,
            kind: "file".to_owned(),
            name: filename.to_owned(),
            text: text.to_owned(),
            ts,
            time: time.to_owned(),
        }
    }

    /// A text, made now.
    pub fn text(outbound: bool, nickname: &str, text: &str, ts: u64) -> (record: Self)
        ensures
            is_clock(record@.time),
            record@ == text_record(outbound, nickname@, text@, ts, record@.time),
            record.outbound == outbound,
            record.kind@ == "text"@,
            record.name@ == nickname@,
            record.text@ == text@,
            record.ts == ts,
    {
        let time = now_time();
        ChatRecord::text_at(outbound, nickname, text, ts, &time)
    }

    /// A system notice, made now.
    pub fn system(text: &str, ts: u64) -> (record: Self)
        ensures
            is_clock(record@.time),
            record@ == system_record(text@, ts, record@.time),
            record.kind@ == "system"@,
            record.name@.len() == 0,
            record.text@ == text@,
            record.ts == ts,
    {
        let time = now_time();
        ChatRecord::system_at(text, ts, &time)
    }

    /// A file transfer record, made now.
    pub fn file(outbound: bool, filename: &str, text: &str, ts: u64) -> (record: Self)
        ensures
            is_clock(record@.time),
            record@ == file_record(outbound, filename@, text@, ts, record@.time),
            record.outbound == outbound,
            record.kind@ == "file"@,
            record.name@ == filename@,
            record.text@ == text@,
            record.ts == ts,
    {
        let time = now_time();
        ChatRecord::file_at(outbound, filename, text, ts, &time)
    }
}

/// Records of different kinds are never taken for one another, whatever they say.
pub proof fn law_kinds_are_told_apart(
    outbound: bool,
    name: Seq<char>,
    text: Seq<char>,
    ts: u64,
    time: Seq<char>,
)
    ensures
        text_record(outbound, name, text, ts, time).kind != system_record(text, ts, time).kind,
        text_record(outbound, name, text, ts, time).kind != file_record(
            outbound,
            name,
            text,
            ts,
            time,
        ).kind,
        system_record(text, ts, time).kind != file_record(outbound, name, text, ts, time).kind,
{
    reveal_strlit("text");
    reveal_strlit("file");
    reveal_strlit("system");
    assert("text"@[0] == 't' && "file"@[0] == 'f' && "system"@[0] == 's');
}

/// As long as the clock's readings fit, a later one makes no earlier timestamp, and each of them is
/// its own timestamp; a reading is cut down by whole multiples of what there is room for.
pub proof fn law_timestamps_follow_the_clock(earlier: u128, later: u128)
    ensures
        earlier <= u64::MAX ==> ts_of(Some(earlier)) == earlier,
        earlier <= later <= u64::MAX ==> ts_of(Some(earlier)) <= ts_of(Some(later)),
        ts_of(Some(later)) == later % 0x1_0000_0000_0000_0000,
        ts_of(None) == 0,
{
    assert(later as u64 == later % 0x1_0000_0000_0000_0000) by (bit_vector);
    assert(earlier as u64 == earlier % 0x1_0000_0000_0000_0000) by (bit_vector);
}

} // verus!
