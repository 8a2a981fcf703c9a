//! The command line, and what is typed where there is no terminal interface.
use vstd::prelude::*;
use crate::chat::{text_record, ChatMsg, ChatMsgModel, ChatRecord, Now, NowModel};
use crate::identity::PeerId;
use crate::laws::{law_history_is_bounded, law_log_is_bounded, law_record_is_private};
use crate::net::{chat_posted, post_chat};
use crate::protocol::{Envelope, EnvelopeModel};
use crate::state::{
    logged, recorded, renamed, ticked, AppState, EffectModel, StateModel, HISTORY,
};
use crate::table::{
    at, has, keys, lemma_lookup_put, lemma_views_push, lookup, opt, views, Dup,
};
use crate::text::{
    decimal, digits_value, is_u64, join2, law_decimal_reads_back, parse_u64, same_text, starts,
    starts_with, strip_prefix, trim, trimmed, unsigned_part,
};

verus! {

/// The arguments of the command line.
#[derive(Debug, PartialEq)]
pub struct CliArgs {
    /// `--nick <name>`
    pub nickname: Option<String>,
    /// `--duration <seconds>`: ends the program after that time.
    pub duration: Option<u64>,
    /// `--no-tui`: no terminal interface.
    pub no_tui: bool,
    /// `--dht`: seek nodes in the distributed hash table.
    pub dht: bool,
    /// `--bootstrap <address>`, any number of times: nodes of the hash table to join.
    pub bootstrap: Vec<String>,
    /// `--dial <address>`, any number of times: nodes to dial.
    pub dial: Vec<String>,
}

/// What [`CliArgs`] say.
#[verifier::ext_equal]
pub struct CliModel {
    pub nickname: Option<Seq<char>>,
    pub duration: Option<u64>,
    pub no_tui: bool,
    pub dht: bool,
    pub bootstrap: Seq<Seq<char>>,
    pub dial: Seq<Seq<char>>,
}

impl View for CliArgs {
    type V = CliModel;

    open spec fn view(&self) -> CliModel {
        CliModel {
            nickname: opt(self.nickname),
            duration: self.duration,
            no_tui: self.no_tui,
            dht: self.dht,
            bootstrap: views(self.bootstrap@),
            dial: views(self.dial@),
        }
    }
}

/// No argument was given.
pub open spec fn no_args() -> CliModel {
    CliModel {
        nickname: None,
        duration: None,
        no_tui: false,
        dht: false,
        bootstrap: Seq::empty(),
        dial: Seq::empty(),
    }
}

/// The number that a text stands for, if it is one.
pub open spec fn number_of(text: Seq<char>) -> Option<u64> {
    if is_u64(text) {
        Some(digits_value(unsigned_part(text)) as u64)
    } else {
        None
    }
}

/// The argument takes a value.
pub open spec fn takes_value(arg: Seq<char>) -> bool {
    arg == "--nick"@ || arg == "--duration"@ || arg == "--bootstrap"@ || arg == "--dial"@
}

/// The arguments once one with its value is taken in.
pub open spec fn with_value(cli: CliModel, arg: Seq<char>, value: Seq<char>) -> CliModel {
    if arg == "--nick"@ {
        CliModel { nickname: Some(value), ..cli }
    } else if arg == "--duration"@ {
        CliModel { duration: number_of(value), ..cli }
    } else if arg == "--bootstrap"@ {
        CliModel { bootstrap: cli.bootstrap.push(value), ..cli }
    } else {
        CliModel { dial: cli.dial.push(value), ..cli }
    }
}

/// The arguments once one without a value is taken in; one that is not known changes nothing.
pub open spec fn with_flag(cli: CliModel, arg: Seq<char>) -> CliModel {
    if arg == "--no-tui"@ {
        CliModel { no_tui: true, ..cli }
    } else if arg == "--dht"@ {
        CliModel { dht: true, ..cli }
    } else {
        cli
    }
}

/// The arguments once those from a position on are taken in. One that takes a value but is the
/// last is passed over.
pub open spec fn args_from(cli: CliModel, args: Seq<Seq<char>>, i: int) -> CliModel
    decreases args.len() - i,
{
    if i >= args.len() {
        cli
    } else if takes_value(args[i]) {
        if i + 1 < args.len() {
            args_from(with_value(cli, args[i], args[i + 1]), args, i + 2)
        } else {
            cli
        }
    } else {
        args_from(with_flag(cli, args[i]), args, i + 1)
    }
}

/// Reads the command line, of which the first part is the program's name.
pub fn parse_args(args: &Vec<String>) -> (cli: CliArgs)
    ensures
        cli@ == args_from(no_args(), views(args@), 1),
{
    let ghost all = views(args@);
    let mut cli = CliArgs {
        nickname: None,
        duration: None,
        no_tui: false,
        dht: false,
        bootstrap: Vec::new(),
        dial: Vec::new(),
    };
    proof {
        assert(views(cli.bootstrap@) =~= Seq::<Seq<char>>::empty());
        assert(views(cli.dial@) =~= Seq::<Seq<char>>::empty());
    }
    let mut i: usize = 1;
    while i < args.len()
        invariant
            all == views(args@),
            1 <= i,
            args_from(cli@, all, i as int) == args_from(no_args(), all, 1),
        decreases args.len() - i,
    {
        let arg = args[i].as_str();
        proof {
            assert(all[i as int] == arg@);
            reveal_strlit("--nick");
            reveal_strlit("--duration");
            reveal_strlit("--bootstrap");
            reveal_strlit("--dial");
        }
        let is_nick = same_text(arg, "--nick");
        let is_duration = same_text(arg, "--duration");
        let is_bootstrap = same_text(arg, "--bootstrap");
        let is_dial = same_text(arg, "--dial");
        if is_nick || is_duration || is_bootstrap || is_dial {
            if args.len() - i > 1 {
                let value = args[i + 1].clone();
                assert(all[i + 1] == value@);
                if is_nick {
                    cli.nickname = Some(value);
                } else if is_duration {
                    cli.duration = parse_u64(&value);
                } else if is_bootstrap {
                    proof {
                        lemma_views_push(cli.bootstrap@, value);
                    }
                    cli.bootstrap.push(value);
                } else {
                    proof {
                        lemma_views_push(cli.dial@, value);
                    }
                    cli.dial.push(value);
                }
                i = i + 2;
            } else {
                return cli;
            }
        } else {
            if same_text(arg, "--no-tui") {
                cli.no_tui = true;
            } else if same_text(arg, "--dht") {
                cli.dht = true;
            }
            i = i + 1;
        }
    }
    cli
}

/// Somebody to whom a chat message is sent, and the key under which.
#[derive(Debug, PartialEq)]
pub struct Target {
    pub peer: PeerId,
    pub key: [u8; 32],
}

/// What a [`Target`] says.
#[verifier::ext_equal]
pub struct TargetModel {
    pub peer: Seq<char>,
    pub key: Seq<u8>,
}

impl View for Target {
    type V = TargetModel;

    open spec fn view(&self) -> TargetModel {
        TargetModel { peer: self.peer@, key: self.key@ }
    }
}

/// A chat message on its way out: to be sealed for each of the targets.
pub struct ChatPlan {
    pub msg: ChatMsg,
    /// The timestamp of the records of it.
    pub ts: u64,
    pub targets: Vec<Target>,
}

/// What a [`ChatPlan`] says.
#[verifier::ext_equal]
pub struct ChatPlanModel {
    pub msg: ChatMsgModel,
    pub ts: u64,
    pub targets: Seq<TargetModel>,
}

impl View for ChatPlan {
    type V = ChatPlanModel;

    open spec fn view(&self) -> ChatPlanModel {
        ChatPlanModel { msg: self.msg@, ts: self.ts, targets: views(self.targets@) }
    }
}

/// The state once a message has its id.
pub open spec fn with_msg_id(s: StateModel) -> StateModel {
    StateModel { next_msg_id: (s.next_msg_id + 1) as u64, ..s }
}

/// Whom a message is for: with the terminal interface the contact whose conversation is shown,
/// else everybody with a session key.
pub open spec fn addressees(s: StateModel) -> Seq<Seq<char>> {
    if s.tui_enabled {
        match s.selected_peer {
            Some(peer) => seq![peer],
            None => Seq::empty(),
        }
    } else {
        keys(s.sessions)
    }
}

/// Those among the peers with a session key.
pub open spec fn targets_of(s: StateModel, peers: Seq<Seq<char>>) -> Seq<TargetModel>
    decreases peers.len(),
{
    if peers.len() == 0 {
        Seq::empty()
    } else {
        let before = targets_of(s, peers.drop_last());
        if has(s.sessions, peers.last()) {
            before.push(TargetModel { peer: peers.last(), key: at(s.sessions, peers.last()) })
        } else {
            before
        }
    }
}

/// The state once a message is on its way out: it has an id and a timestamp, unless it is for
/// nobody, which is logged.
pub open spec fn after_send(s: StateModel) -> StateModel {
    if s.tui_enabled && s.selected_peer is None {
        logged(with_msg_id(s), "[聊天] 请先在左侧选择一个联系人"@)
    } else if addressees(s).len() == 0 {
        logged(
            ticked(with_msg_id(s)),
            "[聊天] 还没有任何可发送的对象（尚未发现/协商完成）"@,
        )
    } else {
        ticked(with_msg_id(s))
    }
}

/// The message on its way out; none where it is for nobody.
pub open spec fn plan_of(s: StateModel, text: Seq<char>) -> Option<ChatPlanModel> {
    if addressees(s).len() == 0 {
        None
    } else {
        Some(
            ChatPlanModel {
                msg: ChatMsgModel { msg_id: s.next_msg_id, nickname: s.nickname, text },
                ts: s.next_ts,
                targets: targets_of(s, addressees(s)),
            },
        )
    }
}

fn targets_for(state: &AppState, peers: &Vec<PeerId>) -> (targets: Vec<Target>)
    ensures
        views(targets@) == targets_of(state@, views(peers@)),
{
    let ghost all = views(peers@);
    let mut targets: Vec<Target> = Vec::new();
    let mut i: usize = 0;
    proof {
        assert(all.take(0) =~= Seq::<Seq<char>>::empty());
        assert(views(targets@) =~= Seq::<TargetModel>::empty());
    }
    while i < peers.len()
        invariant
            i <= peers.len(),
            all == views(peers@),
            views(targets@) == targets_of(state@, all.take(i as int)),
        decreases peers.len() - i,
    {
        let ghost now = all.take(i + 1);
        proof {
            assert(now.drop_last() =~= all.take(i as int));
            assert(now.last() == peers[i as int]@);
        }
        if let Some(key) = state.sessions.get(&peers[i]) {
            let target = Target { peer: peers[i].dup(), key: *key };
            proof {
                lemma_views_push(targets@, target);
            }
            targets.push(target);
        }
        i = i + 1;
    }
    assert(all.take(all.len() as int) =~= all);
    targets
}

fn everybody(state: &AppState) -> (peers: Vec<PeerId>)
    ensures
        views(peers@) == keys(state@.sessions),
{
    let mut peers: Vec<PeerId> = Vec::new();
    let mut i: usize = 0;
    while i < state.sessions.len()
        invariant
            i <= state@.sessions.len(),
            peers.len() == i,
            forall|j: int| 0 <= j < i ==> (#[trigger] peers[j])@ == state@.sessions[j].0,
        decreases state@.sessions.len() - i,
    {
        peers.push(state.sessions.key_at(i).dup());
        i = i + 1;
    }
    assert(views(peers@) =~= keys(state@.sessions));
    peers
}

/// Begins to send a chat message: to the contact whose conversation is shown, or, without the
/// terminal interface, to everybody.
pub fn send_chat(state: &mut AppState, text: &str) -> (plan: Option<ChatPlan>)
    requires
        old(state)@.next_msg_id < u64::MAX,
        old(state)@.next_ts < u64::MAX,
    ensures
        final(state)@ == after_send(old(state)@),
        opt(plan) == plan_of(old(state)@, text@),
        is_addressed(old(state)@, text@, opt(plan)),
{
    let ghost s = state@;
    proof {
        law_message_is_addressed(s, text@);
    }
    let msg_id: u64 = state.next_msg_id;
    state.next_msg_id = msg_id + 1;
    let msg = ChatMsg { msg_id, nickname: state.nickname.clone(), text: text.to_owned() };
    let peers = if state.tui_enabled {
        match &state.selected_peer {
            Some(peer) => {
                let mut one: Vec<PeerId> = Vec::new();
                one.push(peer.dup());
                assert(views(one@) =~= addressees(s));
                one
            },
            None => {
                state.log_str("[聊天] 请先在左侧选择一个联系人");
                return None;
            },
        }
    } else {
        everybody(state)
    };
    let ts: u64 = state.tick_ts();
    if peers.len() == 0 {
        state.log_str("[聊天] 还没有任何可发送的对象（尚未发现/协商完成）");
        return None;
    }
    let targets = targets_for(state, &peers);
    proof {
        lemma_targets_same(state@, s, views(peers@));
    }
    Some(ChatPlan { msg, ts, targets })
}

proof fn lemma_targets_same(a: StateModel, b: StateModel, peers: Seq<Seq<char>>)
    requires
        a.sessions == b.sessions,
    ensures
        targets_of(a, peers) == targets_of(b, peers),
    decreases peers.len(),
{
    if peers.len() > 0 {
        lemma_targets_same(a, b, peers.drop_last());
    }
}

/// The state once a chat message is sealed for a peer, or could not be: what was sealed is sent,
/// waited for and recorded.
pub open spec fn after_sealing(
    s: StateModel,
    plan: ChatPlanModel,
    peer: Seq<char>,
    sealed: Result<EnvelopeModel, Seq<char>>,
    now: NowModel,
) -> StateModel {
    match sealed {
        Ok(envelope) => recorded(
            chat_posted(s, peer, plan.msg, 0, envelope),
            peer,
            text_record(true, s.nickname, plan.msg.text, plan.ts, now.time),
        ),
        Err(error) => logged(s, "[聊天] 加密失败: "@ + error),
    }
}

/// What came of sealing a message.
pub open spec fn sealed_view(sealed: Result<Envelope, String>) -> Result<
    EnvelopeModel,
    Seq<char>,
> {
    match sealed {
        Ok(envelope) => Ok(envelope@),
        Err(error) => Err(error@),
    }
}

/// Takes in that a chat message is sealed for a peer, or could not be.
pub fn on_sealed(
    state: &mut AppState,
    plan: &ChatPlan,
    peer: &PeerId,
    sealed: Result<Envelope, String>,
    now: &Now,
)
    requires
        old(state)@.next_request < u64::MAX,
    ensures
        final(state)@ == after_sealing(old(state)@, plan@, peer@, sealed_view(sealed), now@),
{
    match sealed {
        Ok(envelope) => {
            post_chat(state, peer, plan.msg.dup(), 0, envelope);
            let record = ChatRecord::text_at(
                true,
                &state.nickname,
                &plan.msg.text,
                plan.ts,
                &now.time,
            );
            state.record_to_peer(peer, record);
        },
        Err(error) => {
            let line = join2("[聊天] 加密失败: ", &error);
            state.log(line);
        },
    }
}

/// What a line that was typed calls for.
pub enum Command {
    Nothing,
    /// To send the file at the path.
    SendFile(String),
    /// To seal and send a chat message.
    SendChat(ChatPlan),
}

/// What a [`Command`] says.
#[verifier::ext_equal]
pub enum CommandModel {
    Nothing,
    SendFile(Seq<char>),
    SendChat(ChatPlanModel),
}

impl View for Command {
    type V = CommandModel;

    open spec fn view(&self) -> CommandModel {
        match self {
            Command::Nothing => CommandModel::Nothing,
            Command::SendFile(path) => CommandModel::SendFile(path@),
            Command::SendChat(plan) => CommandModel::SendChat(plan@),
        }
    }
}

/// The state once a line, without the white space around it, is taken in.
pub open spec fn after_line(s: StateModel, line: Seq<char>) -> StateModel {
    if line.len() == 0 || starts(line, "send "@) {
        s
    } else if line == "help"@ {
        logged(
            s,
            "直接输入=群发聊天；`send <路径>`=发文件；`nick <名称>`=改名；Ctrl+C=退出"@,
        )
    } else if starts(line, "nick "@) {
        renamed(s, trimmed(line.skip("nick "@.len() as int)))
    } else if starts(line, "/"@) {
        logged(s, "[提示] 未知命令，输入 help 查看帮助"@)
    } else {
        after_send(s)
    }
}

/// What a line, without the white space around it, calls for.
pub open spec fn command_of(s: StateModel, line: Seq<char>) -> CommandModel {
    if line.len() == 0 {
        CommandModel::Nothing
    } else if starts(line, "send "@) {
        CommandModel::SendFile(trimmed(line.skip("send "@.len() as int)))
    } else if line == "help"@ || starts(line, "nick "@) || starts(line, "/"@) {
        CommandModel::Nothing
    } else {
        match plan_of(s, line) {
            Some(plan) => CommandModel::SendChat(plan),
            None => CommandModel::Nothing,
        }
    }
}

/// Takes in a line that was typed: a command, or a chat message.
pub fn handle_cmd(state: &mut AppState, line: &str) -> (command: Command)
    requires
        old(state)@.next_msg_id < u64::MAX,
        old(state)@.next_ts < u64::MAX,
    ensures
        final(state)@ == after_line(old(state)@, trimmed(line@)),
        command@ == command_of(old(state)@, trimmed(line@)),
{
    let line = trim(line);
    if line.unicode_len() == 0 {
        return Command::Nothing;
    }
    if let Some(path) = strip_prefix(line, "send ") {
        Command::SendFile(trim(path).to_owned())
    } else if same_text(line, "help") {
        state.log_str(
            "直接输入=群发聊天；`send <路径>`=发文件；`nick <名称>`=改名；Ctrl+C=退出",
        );
        Command::Nothing
    } else if let Some(name) = strip_prefix(line, "nick ") {
        state.set_nickname(trim(name).to_owned());
        Command::Nothing
    } else if starts_with(line, "/") {
        state.log_str("[提示] 未知命令，输入 help 查看帮助");
        Command::Nothing
    } else {
        match send_chat(state, line) {
            Some(plan) => Command::SendChat(plan),
            None => Command::Nothing,
        }
    }
}

/// The message is for the peer: with the terminal interface its conversation is the one shown,
/// without it everybody with a session is addressed.
pub open spec fn is_for(s: StateModel, peer: Seq<char>) -> bool {
    if s.tui_enabled {
        s.selected_peer == Some(peer)
    } else {
        has(s.sessions, peer)
    }
}

/// The message says the text under this node's name, with the next id and timestamp; each target is
/// sealed for under the key agreed with that very peer; and the targets are those whom the message
/// is for and with whom a key is agreed, once each. There is no message where there is nobody whom
/// it could be for.
pub open spec fn is_addressed(s: StateModel, text: Seq<char>, plan: Option<ChatPlanModel>) -> bool {
    &&& plan is None <==> (if s.tui_enabled {
        s.selected_peer is None
    } else {
        s.sessions.len() == 0
    })
    &&& plan matches Some(p) ==> {
        &&& p.msg.text == text
        &&& p.msg.nickname == s.nickname
        &&& p.msg.msg_id == s.next_msg_id
        &&& p.ts == s.next_ts
        &&& forall|i: int|
            0 <= i < p.targets.len() ==> is_for(s, (#[trigger] p.targets[i]).peer) && lookup(
                s.sessions,
                p.targets[i].peer,
            ) == Some(p.targets[i].key)
        &&& forall|peer: Seq<char>|
            is_for(s, peer) && #[trigger] has(s.sessions, peer) ==> exists|i: int|
                0 <= i < p.targets.len() && (#[trigger] p.targets[i]).peer == peer
        &&& s.tui_enabled ==> p.targets.len() <= 1
        &&& !s.tui_enabled ==> p.targets.len() == s.sessions.len()
    }
}

proof fn lemma_targets(s: StateModel, peers: Seq<Seq<char>>)
    ensures
        forall|i: int|
            0 <= i < targets_of(s, peers).len() ==> lookup(
                s.sessions,
                (#[trigger] targets_of(s, peers)[i]).peer,
            ) == Some(targets_of(s, peers)[i].key) && peers.contains(targets_of(s, peers)[i].peer),
        forall|k: int|
            0 <= k < peers.len() && has(s.sessions, #[trigger] peers[k]) ==> exists|i: int|
                0 <= i < targets_of(s, peers).len() && (#[trigger] targets_of(s, peers)[i]).peer
                    == peers[k],
        targets_of(s, peers).len() <= peers.len(),
        (forall|k: int| 0 <= k < peers.len() ==> has(s.sessions, #[trigger] peers[k])) ==> targets_of(
            s,
            peers,
        ).len() == peers.len(),
    decreases peers.len(),
{
    if peers.len() > 0 {
        let front = peers.drop_last();
        let before = targets_of(s, front);
        let after = targets_of(s, peers);
        lemma_targets(s, front);
        assert forall|i: int| 0 <= i < after.len() implies lookup(
            s.sessions,
            (#[trigger] after[i]).peer,
        ) == Some(after[i].key) && peers.contains(after[i].peer) by {
            if i < before.len() {
                assert(after[i] == before[i]);
                let k = choose|k: int| 0 <= k < front.len() && front[k] == before[i].peer;
                assert(peers[k] == after[i].peer);
            } else {
                assert(peers[peers.len() - 1] == after[i].peer);
            }
        }
        assert forall|k: int| 0 <= k < peers.len() && has(s.sessions, #[trigger] peers[k]) implies exists|
            i: int,
        |
            0 <= i < after.len() && (#[trigger] after[i]).peer == peers[k] by {
            if k < front.len() {
                assert(front[k] == peers[k]);
                let i = choose|i: int|
                    0 <= i < before.len() && (#[trigger] before[i]).peer == front[k];
                assert(after[i] == before[i]);
            } else {
                assert(after[before.len() as int].peer == peers[k]);
            }
        }
        if forall|k: int| 0 <= k < peers.len() ==> has(s.sessions, #[trigger] peers[k]) {
            assert forall|k: int| 0 <= k < front.len() implies has(
                s.sessions,
                #[trigger] front[k],
            ) by {
                assert(front[k] == peers[k]);
            }
            assert(has(s.sessions, peers[peers.len() - 1]));
        }
    }
}

/// A chat message goes to whom it is for: to the contact whose conversation is shown, or, without
/// the terminal interface, to everybody; for each under the key agreed with that peer.
pub proof fn law_message_is_addressed(s: StateModel, text: Seq<char>)
    ensures
        is_addressed(s, text, plan_of(s, text)),
{
    let peers = addressees(s);
    let targets = targets_of(s, peers);
    lemma_targets(s, peers);
    if plan_of(s, text) is Some {
        assert forall|i: int| 0 <= i < targets.len() implies is_for(s, (#[trigger] targets[i]).peer) by {
            let k = choose|k: int| 0 <= k < peers.len() && peers[k] == targets[i].peer;
            if !s.tui_enabled {
                assert(s.sessions[k].0 == targets[i].peer);
            }
        }
        assert forall|peer: Seq<char>|
            is_for(s, peer) && #[trigger] has(s.sessions, peer) implies exists|i: int|
            0 <= i < targets.len() && (#[trigger] targets[i]).peer == peer by {
            if s.tui_enabled {
                assert(peers[0] == peer);
            } else {
                let k = choose|k: int|
                    0 <= k < s.sessions.len() && (#[trigger] s.sessions[k]).0 == peer;
                assert(peers[k] == peer);
            }
        }
        if !s.tui_enabled {
            assert forall|k: int| 0 <= k < peers.len() implies has(s.sessions, #[trigger] peers[k]) by {
                assert(s.sessions[k].0 == peers[k]);
            }
        }
    }
}

/// A message that was sealed is sent to that peer, in that envelope and no other, is waited for,
/// and stands at the end of the conversation with that peer as this node's own words; nothing of
/// it counts as unread. One that could not be sealed is neither sent nor recorded.
pub proof fn law_sealed_is_sent_and_recorded(
    s: StateModel,
    plan: ChatPlanModel,
    peer: Seq<char>,
    sealed: Result<EnvelopeModel, Seq<char>>,
    now: NowModel,
    other: Seq<char>,
)
    requires
        s.next_request < u64::MAX,
    ensures
        ({
            let after = after_sealing(s, plan, peer, sealed, now);
            &&& sealed matches Ok(e) ==> {
                &&& after.effects == s.effects.push(
                    EffectModel::SendChat { request: s.next_request, peer, envelope: e },
                )
                &&& after.next_request > s.next_request
                &&& lookup(after.pending_chat_msgs, s.next_request) == Some((peer, plan.msg, 0u32))
                &&& lookup(after.peers, peer) matches Some(info) && {
                    &&& 0 < info.records.len() <= HISTORY
                    &&& info.records.last().outbound
                    &&& info.records.last().kind == "text"@
                    &&& info.records.last().name == s.nickname
                    &&& info.records.last().text == plan.msg.text
                    &&& info.records.last().ts == plan.ts
                    &&& info.records.last().time == now.time
                    &&& has(s.peers, peer) ==> info.unread == at(s.peers, peer).unread
                }
                &&& has(after.dirty_conversations, peer)
            }
            &&& sealed is Err ==> after.peers == s.peers && after.pending_chat_msgs
                == s.pending_chat_msgs && after.next_request == s.next_request
            &&& other != peer ==> lookup(after.peers, other) == lookup(s.peers, other)
        }),
{
    if let Ok(e) = sealed {
        let s1 = chat_posted(s, peer, plan.msg, 0, e);
        let record = text_record(true, s.nickname, plan.msg.text, plan.ts, now.time);
        law_history_is_bounded(s1, peer, record);
        if other != peer {
            law_record_is_private(s1, peer, record, other);
        }
        lemma_lookup_put(
            s.pending_chat_msgs,
            s.next_request,
            (peer, plan.msg, 0u32),
            s.next_request,
        );
    }
}

/// What is typed after a command word is what is left without the word.
proof fn lemma_after_word(word: Seq<char>, rest: Seq<char>)
    ensures
        starts(word + rest, word),
        (word + rest).skip(word.len() as int) == rest,
{
    assert((word + rest).subrange(0, word.len() as int) =~= word);
    assert((word + rest).skip(word.len() as int) =~= rest);
}

/// What is typed without the terminal interface: a file is sent under the path that is named, the
/// nickname becomes the one that is named, and whatever is no command is said to everybody, as it
/// was typed. Nothing else is said.
pub proof fn law_lines_are_commands(s: StateModel, rest: Seq<char>, line: Seq<char>)
    ensures
        command_of(s, "send "@ + rest) == CommandModel::SendFile(trimmed(rest)),
        after_line(s, "send "@ + rest) == s,
        command_of(s, "nick "@ + rest) is Nothing,
        after_line(s, "nick "@ + rest).nickname == trimmed(rest),
        command_of(s, Seq::empty()) is Nothing && after_line(s, Seq::empty()) == s,
        command_of(s, "/"@ + rest) is Nothing && after_line(s, "/"@ + rest).next_msg_id
            == s.next_msg_id,
        line.len() > 0 && !starts(line, "send "@) && !starts(line, "nick "@) && !starts(line, "/"@)
            && line != "help"@ ==> {
            &&& after_line(s, line).next_msg_id == (s.next_msg_id + 1) as u64
            &&& is_addressed(
                s,
                line,
                match command_of(s, line) {
                    CommandModel::SendChat(plan) => Some(plan),
                    _ => None,
                },
            )
        },
{
    reveal_strlit("send ");
    reveal_strlit("nick ");
    reveal_strlit("help");
    reveal_strlit("/");
    lemma_after_word("send "@, rest);
    lemma_after_word("nick "@, rest);
    lemma_after_word("/"@, rest);
    let nick = "nick "@ + rest;
    let slash = "/"@ + rest;
    assert(nick[0] == 'n');
    assert(slash[0] == '/');
    assert("help"@[0] == 'h');
    if starts(nick, "send "@) {
        assert(nick.subrange(0, 5)[0] == 's');
    }
    if starts(slash, "send "@) {
        assert(slash.subrange(0, 5)[0] == 's');
    }
    law_message_is_addressed(s, line);
}

/// The options of the command line are all taken in. What was given before is not lost; each of
/// the addresses to be dialled or joined is added behind those before it; of nicknames and times
/// the last one counts; and what was not given is not set.
pub proof fn law_options_are_taken(cli: CliModel, args: Seq<Seq<char>>, i: int)
    requires
        0 <= i,
    ensures
        ({
            let after = args_from(cli, args, i);
            let valued = i + 1 < args.len();
            &&& cli.dial.is_prefix_of(after.dial)
            &&& cli.bootstrap.is_prefix_of(after.bootstrap)
            &&& cli.no_tui ==> after.no_tui
            &&& cli.dht ==> after.dht
            &&& valued && args[i] == "--dial"@ ==> cli.dial.push(args[i + 1]).is_prefix_of(after.dial)
            &&& valued && args[i] == "--bootstrap"@ ==> cli.bootstrap.push(
                args[i + 1],
            ).is_prefix_of(after.bootstrap)
            &&& i < args.len() && args[i] == "--no-tui"@ ==> after.no_tui
            &&& i < args.len() && args[i] == "--dht"@ ==> after.dht
            &&& valued && args[i] == "--nick"@ && (forall|j: int|
                i + 2 <= j < args.len() ==> args[j] != "--nick"@) ==> after.nickname == Some(
                args[i + 1],
            )
            &&& forall|n: u64|
                valued && args[i] == "--duration"@ && args[i + 1] == #[trigger] decimal(n as nat) && (
                forall|j: int| i + 2 <= j < args.len() ==> args[j] != "--duration"@) ==> after.duration
                    == Some(n)
            &&& (forall|j: int| i <= j < args.len() ==> args[j] != "--nick"@) ==> after.nickname
                == cli.nickname
            &&& (forall|j: int| i <= j < args.len() ==> args[j] != "--duration"@) ==> after.duration
                == cli.duration
            &&& (forall|j: int| i <= j < args.len() ==> args[j] != "--dial"@) ==> after.dial
                == cli.dial
            &&& (forall|j: int| i <= j < args.len() ==> args[j] != "--bootstrap"@) ==> after.bootstrap
                == cli.bootstrap
            &&& (forall|j: int| i <= j < args.len() ==> args[j] != "--no-tui"@) ==> after.no_tui
                == cli.no_tui
            &&& (forall|j: int| i <= j < args.len() ==> args[j] != "--dht"@) ==> after.dht == cli.dht
        }),
    decreases args.len() - i,
{
    reveal_strlit("--nick");
    reveal_strlit("--duration");
    reveal_strlit("--bootstrap");
    reveal_strlit("--dial");
    reveal_strlit("--no-tui");
    reveal_strlit("--dht");
    assert("--nick"@[2] == 'n' && "--duration"@[2] == 'd' && "--duration"@[3] == 'u'
        && "--bootstrap"@[2] == 'b' && "--dial"@[2] == 'd' && "--dial"@[3] == 'i'
        && "--no-tui"@[2] == 'n' && "--no-tui"@[3] == 'o' && "--nick"@[3] == 'i' && "--dht"@[2]
        == 'd' && "--dht"@[3] == 'h');
    if i < args.len() {
        if takes_value(args[i]) {
            if i + 1 < args.len() {
                let next = with_value(cli, args[i], args[i + 1]);
                law_options_are_taken(next, args, i + 2);
                let after = args_from(cli, args, i);
                assert(cli.dial.is_prefix_of(next.dial));
                assert(cli.bootstrap.is_prefix_of(next.bootstrap));
                lemma_prefixes(cli.dial, next.dial, after.dial);
                lemma_prefixes(cli.bootstrap, next.bootstrap, after.bootstrap);
                assert forall|n: u64|
                    args[i] == "--duration"@ && args[i + 1] == #[trigger] decimal(n as nat)
                    implies next.duration == Some(n) by {
                    law_decimal_reads_back(n);
                }
            }
        } else {
            law_options_are_taken(with_flag(cli, args[i]), args, i + 1);
        }
    }
}

proof fn lemma_prefixes(a: Seq<Seq<char>>, b: Seq<Seq<char>>, c: Seq<Seq<char>>)
    requires
        a.is_prefix_of(b),
        b.is_prefix_of(c),
    ensures
        a.is_prefix_of(c),
{
    assert(a =~= c.subrange(0, a.len() as int));
}

/// The options are taken in one after the other, each with the value that follows it where it has
/// one: an option does not depend on those after it, and none of those is passed over. What is no
/// option changes nothing, and neither does an option whose value is not there.
pub proof fn law_options_follow_one_another(cli: CliModel, args: Seq<Seq<char>>, i: int)
    requires
        0 <= i < args.len(),
    ensures
        ({
            let arg = args[i];
            let value = args[i + 1];
            let valued = i + 1 < args.len();
            let after = args_from(cli, args, i);
            &&& arg == "--no-tui"@ ==> after == args_from(
                (CliModel { no_tui: true, ..cli }),
                args,
                i + 1,
            )
            &&& arg == "--dht"@ ==> after == args_from((CliModel { dht: true, ..cli }), args, i + 1)
            &&& valued && arg == "--nick"@ ==> after == args_from(
                (CliModel { nickname: Some(value), ..cli }),
                args,
                i + 2,
            )
            &&& valued && arg == "--bootstrap"@ ==> after == args_from(
                (CliModel { bootstrap: cli.bootstrap.push(value), ..cli }),
                args,
                i + 2,
            )
            &&& valued && arg == "--dial"@ ==> after == args_from(
                (CliModel { dial: cli.dial.push(value), ..cli }),
                args,
                i + 2,
            )
            &&& valued && arg == "--duration"@ && !is_u64(value) ==> after == args_from(
                (CliModel { duration: None, ..cli }),
                args,
                i + 2,
            )
            &&& forall|n: u64|
                valued && arg == "--duration"@ && value == #[trigger] decimal(n as nat) ==> after
                    == args_from((CliModel { duration: Some(n), ..cli }), args, i + 2)
            &&& arg != "--no-tui"@ && arg != "--dht"@ && arg != "--nick"@ && arg != "--bootstrap"@
                && arg != "--dial"@ && arg != "--duration"@ ==> after == args_from(cli, args, i + 1)
            &&& !valued && (arg == "--nick"@ || arg == "--bootstrap"@ || arg == "--dial"@ || arg
                == "--duration"@) ==> after == cli
            &&& args_from(cli, args, args.len() as int) == cli
        }),
{
    reveal_strlit("--nick");
    reveal_strlit("--duration");
    reveal_strlit("--bootstrap");
    reveal_strlit("--dial");
    reveal_strlit("--no-tui");
    reveal_strlit("--dht");
    assert("--nick"@[2] == 'n' && "--duration"@[2] == 'd' && "--duration"@[3] == 'u'
        && "--bootstrap"@[2] == 'b' && "--dial"@[2] == 'd' && "--dial"@[3] == 'i'
        && "--no-tui"@[2] == 'n' && "--no-tui"@[3] == 'o' && "--nick"@[3] == 'i' && "--dht"@[2]
        == 'd' && "--dht"@[3] == 'h');
    assert forall|n: u64|
        i + 1 < args.len() && args[i] == "--duration"@ && args[i + 1] == #[trigger] decimal(n as nat)
        implies args_from(cli, args, i) == args_from(
        (CliModel { duration: Some(n), ..cli }),
        args,
        i + 2,
    ) by {
        law_decimal_reads_back(n);
    }
}

/// That a message is for nobody is logged; one that is for somebody leaves nothing in the log. In
/// either case only the numbers, and the log, are touched.
pub proof fn law_nobody_to_speak_to_is_logged(s: StateModel, text: Seq<char>)
    ensures
        ({
            let after = after_send(s);
            &&& plan_of(s, text) is Some ==> after.logs == s.logs && after.effects == s.effects
                && after.next_ts == (s.next_ts + 1) as u64
            &&& plan_of(s, text) is None && s.tui_enabled ==> after.effects == s.effects
                && after.logs.len() > 0 && after.logs.last()
                == "[聊天] 请先在左侧选择一个联系人"@
            &&& plan_of(s, text) is None && !s.tui_enabled ==> after.logs == s.logs
                && after.effects.len() == s.effects.len() + 1 && after.effects.last() is Print
            &&& after.peers == s.peers && after.sessions == s.sessions
            &&& after.next_msg_id == (s.next_msg_id + 1) as u64
        }),
{
    if s.tui_enabled {
        law_log_is_bounded(with_msg_id(s), "[聊天] 请先在左侧选择一个联系人"@);
    }
}

} // verus!
