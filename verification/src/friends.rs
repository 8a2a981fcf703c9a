//! Nodes beyond the local network: friends that are dialled, and bootstrap nodes of the hash
//! table; at the start and later.
use vstd::prelude::*;
use crate::cli::{CliArgs, CliModel};
use crate::config::{AppConfig, ConfigModel};
use crate::crypto::{hex_encode, hex_text};
use crate::identity::{address_of, parted, split_p2p, Address, Parsed, PeerId};
use crate::state::{
    doing, law_all_lines_are_logged, logged, logged_all, noticed, peer_of, with_peer, AppState,
    Effect, EffectModel, PeerModel, StateModel,
};
use crate::table::{
    dup_all, lemma_lookup_put, lemma_views_push, lookup, opt, views,
};
use crate::text::{join2, join4, occurs_in, shorten, shortened, stands_at};

verus! {

/// The state once the node has said who it is.
pub open spec fn announced(s: StateModel) -> StateModel {
    logged(
        logged(
            logged(
                s,
                "[启动] 昵称: "@ + s.nickname + ", PeerID: "@ + s.local_peer_id,
            ),
            "[启动] 配置已保存到 config.json；聊天记录保存到 conversations/"@,
        ),
        "[启动] 应用层 X25519 公钥: "@ + hex_text(s.crypto.pubkey),
    )
}

/// Logs who this node is.
pub fn announce(state: &mut AppState)
    ensures
        final(state)@ == announced(old(state)@),
{
    let line = join4("[启动] 昵称: ", &state.nickname, ", PeerID: ", &state.local_peer_id.text);
    let public = hex_encode(&state.crypto.public_bytes());
    let last = join2("[启动] 应用层 X25519 公钥: ", &public);
    state.log(line);
    state.log_str("[启动] 配置已保存到 config.json；聊天记录保存到 conversations/");
    state.log(last);
}

/// A node of the hash table, with the address at which it is reached.
#[derive(Debug, PartialEq)]
pub struct Bootstrap {
    pub peer: PeerId,
    pub addr: String,
}

/// What a [`Bootstrap`] says.
#[verifier::ext_equal]
pub struct BootstrapModel {
    pub peer: Seq<char>,
    pub addr: Seq<char>,
}

impl View for Bootstrap {
    type V = BootstrapModel;

    open spec fn view(&self) -> BootstrapModel {
        BootstrapModel { peer: self.peer@, addr: self.addr@ }
    }
}

/// What this node does at the start.
pub struct Plan {
    /// The nodes of the hash table to be joined.
    pub joins: Vec<Bootstrap>,
    /// The addresses to be dialled.
    pub dials: Vec<String>,
}

/// The addresses of bootstrap nodes: those of the command line, then those that were kept.
pub open spec fn bootstrap_list(cli: CliModel, config: ConfigModel) -> Seq<Seq<char>> {
    cli.bootstrap + config.bootstrap_nodes
}

/// The addresses to be dialled: those of the command line, then the friends.
pub open spec fn dial_list(cli: CliModel, config: ConfigModel) -> Seq<Seq<char>> {
    cli.dial + config.friends
}

/// The hash table is used: it was asked for, or there is a bootstrap node.
pub open spec fn uses_dht(cli: CliModel, config: ConfigModel) -> bool {
    cli.dht || bootstrap_list(cli, config).len() > 0
}

/// The bootstrap node that an address stands for.
pub open spec fn bootstrap_at(parsed: Parsed) -> Option<BootstrapModel> {
    match parsed {
        Ok((Some(peer), rest)) => Some(BootstrapModel { peer, addr: rest }),
        _ => None,
    }
}

/// The state once the address of a bootstrap node was read: one that stands for none is logged.
pub open spec fn after_reading(s: StateModel, addr: Seq<char>, parsed: Parsed) -> StateModel {
    match parsed {
        Ok((Some(_), _)) => s,
        Ok((None, _)) => logged(s, "[DHT] 引导地址缺少 /p2p/<id>，已跳过："@ + addr),
        Err(error) => logged(s, "[DHT] 引导地址解析失败 "@ + addr + "："@ + error),
    }
}

/// The bootstrap nodes for which the first addresses stand.
pub open spec fn joins_of(list: Seq<Seq<char>>) -> Seq<BootstrapModel>
    decreases list.len(),
{
    if list.len() == 0 {
        Seq::empty()
    } else {
        let before = joins_of(list.drop_last());
        match bootstrap_at(address_of(list.last())) {
            Some(node) => before.push(node),
            None => before,
        }
    }
}

/// The state once the addresses of bootstrap nodes were read.
pub open spec fn after_reading_all(s: StateModel, list: Seq<Seq<char>>) -> StateModel
    decreases list.len(),
{
    if list.len() == 0 {
        s
    } else {
        after_reading(
            after_reading_all(s, list.drop_last()),
            list.last(),
            address_of(list.last()),
        )
    }
}

/// The state once it is planned what to do at the start.
pub open spec fn planned(s: StateModel, cli: CliModel, config: ConfigModel) -> StateModel {
    let dht = uses_dht(cli, config);
    let s1 = StateModel { dht_enabled: dht, ..s };
    if dht {
        let s2 = after_reading_all(s1, bootstrap_list(cli, config));
        if joins_of(bootstrap_list(cli, config)).len() == 0 {
            logged(
                s2,
                "[DHT] 未提供可用的引导站点，DHT 仅作为被动节点（可由他人发现）"@,
            )
        } else {
            s2
        }
    } else {
        s1
    }
}

/// What reading an address gave.
pub open spec fn parsed_view(parsed: Result<Address, String>) -> Parsed {
    match parsed {
        Ok(address) => Ok(parted(address@)),
        Err(error) => Err(error@),
    }
}

/// Takes in the address of a bootstrap node, given what reading it gave.
pub fn read_bootstrap(state: &mut AppState, addr: &str, parsed: Result<Address, String>) -> (node:
    Option<Bootstrap>)
    ensures
        final(state)@ == after_reading(old(state)@, addr@, parsed_view(parsed)),
        opt(node) == bootstrap_at(parsed_view(parsed)),
{
    match parsed {
        Ok(address) => {
            match split_p2p(address) {
                Some((peer, rest)) => Some(Bootstrap { peer, addr: rest }),
                None => {
                    let line = join2("[DHT] 引导地址缺少 /p2p/<id>，已跳过：", addr);
                    state.log(line);
                    None
                },
            }
        },
        Err(error) => {
            let line = join4("[DHT] 引导地址解析失败 ", addr, "：", &error);
            state.log(line);
            None
        },
    }
}

/// One list after another.
fn both(first: &Vec<String>, second: &Vec<String>) -> (all: Vec<String>)
    ensures
        views(all@) == views(first@) + views(second@),
{
    let mut all = dup_all(first);
    let mut rest = dup_all(second);
    let ghost a = all@;
    let ghost b = rest@;
    all.append(&mut rest);
    assert(views(all@) =~= views(a) + views(b));
    all
}

/// Plans what to do at the start: which nodes of the hash table to join, and whom to dial.
pub fn plan_startup(state: &mut AppState, cli: &CliArgs, config: &AppConfig) -> (plan: Plan)
    ensures
        final(state)@ == planned(old(state)@, cli@, config@),
        views(plan.joins@) == (if uses_dht(cli@, config@) {
            joins_of(bootstrap_list(cli@, config@))
        } else {
            Seq::empty()
        }),
        views(plan.dials@) == dial_list(cli@, config@),
        begins_with(cli@, config@, views(plan.joins@), views(plan.dials@)),
{
    proof {
        law_start_reaches_out(cli@, config@);
    }
    let list = both(&cli.bootstrap, &config.bootstrap_nodes);
    let dials = both(&cli.dial, &config.friends);
    let ghost all = views(list@);
    let mut joins: Vec<Bootstrap> = Vec::new();
    assert(views(joins@) =~= Seq::<BootstrapModel>::empty());
    state.dht_enabled = cli.dht || list.len() > 0;
    if state.dht_enabled {
        let ghost start = state@;
        let mut i: usize = 0;
        assert(all.take(0) =~= Seq::<Seq<char>>::empty());
        while i < list.len()
            invariant
                i <= list.len(),
                all == views(list@),
                state@ == after_reading_all(start, all.take(i as int)),
                views(joins@) == joins_of(all.take(i as int)),
            decreases list.len() - i,
        {
            let ghost now = all.take(i + 1);
            proof {
                assert(now.drop_last() =~= all.take(i as int));
                assert(now.last() == list[i as int]@);
            }
            let parsed = Address::parse(&list[i]);
            assert(parsed_view(parsed) == address_of(list[i as int]@));
            if let Some(node) = read_bootstrap(state, &list[i], parsed) {
                proof {
                    lemma_views_push(joins@, node);
                }
                joins.push(node);
            }
            i = i + 1;
        }
        assert(all.take(all.len() as int) =~= all);
        if joins.len() == 0 {
            state.log_str("[DHT] 未提供可用的引导站点，DHT 仅作为被动节点（可由他人发现）");
        }
    }
    Plan { joins, dials }
}

/// An outcome in words where it is an error.
pub open spec fn error_of(outcome: Result<(), String>) -> Option<Seq<char>> {
    match outcome {
        Ok(_) => None,
        Err(error) => Some(error@),
    }
}

/// Takes in how joining the hash table at the start has begun.
pub fn on_bootstrap(state: &mut AppState, outcome: Result<(), String>)
    ensures
        final(state)@ == logged(
            old(state)@,
            match error_of(outcome) {
                None => "[DHT] 已向引导站点发起 bootstrap，正在加入分布式哈希表…"@,
                Some(error) => "[DHT] bootstrap 失败："@ + error,
            },
        ),
{
    match &outcome {
        Ok(_) => state.log_str(
            "[DHT] 已向引导站点发起 bootstrap，正在加入分布式哈希表…",
        ),
        Err(error) => {
            let line = join2("[DHT] bootstrap 失败：", error);
            state.log(line);
        },
    }
}

/// Takes in how announcing this node in the hash table went.
pub fn on_providing(state: &mut AppState, outcome: Result<(), String>)
    ensures
        final(state)@ == logged(
            old(state)@,
            match error_of(outcome) {
                None => "[DHT] 已在 DHT 上宣告自己在线（供他人发现）"@,
                Some(error) => "[DHT] 宣告在线失败："@ + error,
            },
        ),
{
    match &outcome {
        Ok(_) => state.log_str("[DHT] 已在 DHT 上宣告自己在线（供他人发现）"),
        Err(error) => {
            let line = join2("[DHT] 宣告在线失败：", error);
            state.log(line);
        },
    }
}

/// The state once the address of a friend was read at the start: one that is none is logged.
pub open spec fn after_dial_read(s: StateModel, addr: Seq<char>, parsed: Parsed) -> StateModel {
    match parsed {
        Ok(_) => s,
        Err(error) => logged(s, "[直连] 地址解析失败 "@ + addr + "："@ + error),
    }
}

/// Takes in an address to be dialled, given what reading it gave; says whether to dial it.
pub fn read_dial(state: &mut AppState, addr: &str, parsed: Result<Address, String>) -> (dial: bool)
    ensures
        final(state)@ == after_dial_read(old(state)@, addr@, parsed_view(parsed)),
        dial == (parsed is Ok),
{
    match &parsed {
        Ok(_) => true,
        Err(error) => {
            let line = join4("[直连] 地址解析失败 ", addr, "：", error);
            state.log(line);
            false
        },
    }
}

/// Reads an address to be dialled at the start; says whether to dial it.
pub fn prepare_dial(state: &mut AppState, addr: &str) -> (dial: bool)
    ensures
        final(state)@ == after_dial_read(old(state)@, addr@, address_of(addr@)),
        dial == (address_of(addr@) is Ok),
{
    let parsed = Address::parse(addr);
    assert(parsed_view(parsed) == address_of(addr@));
    read_dial(state, addr, parsed)
}

/// Takes in how dialling an address has begun.
pub fn on_dialed(state: &mut AppState, addr: &str, outcome: Result<(), String>)
    ensures
        final(state)@ == logged(
            old(state)@,
            match error_of(outcome) {
                None => "[直连] 正在连接："@ + addr@,
                Some(error) => "[直连] 拨号失败 "@ + addr@ + "："@ + error,
            },
        ),
{
    match &outcome {
        Ok(_) => {
            let line = join2("[直连] 正在连接：", addr);
            state.log(line);
        },
        Err(error) => {
            let line = join4("[直连] 拨号失败 ", addr, "：", error);
            state.log(line);
        },
    }
}

/// What adding a friend calls for.
pub enum FriendAction {
    Nothing,
    /// To join the hash table through a node, and to keep its address.
    Join(Bootstrap),
    /// To dial the address.
    Dial,
}

/// What a [`FriendAction`] says.
#[verifier::ext_equal]
pub enum FriendActionModel {
    Nothing,
    Join(BootstrapModel),
    Dial,
}

impl View for FriendAction {
    type V = FriendActionModel;

    open spec fn view(&self) -> FriendActionModel {
        match self {
            FriendAction::Nothing => FriendActionModel::Nothing,
            FriendAction::Join(node) => FriendActionModel::Join(node@),
            FriendAction::Dial => FriendActionModel::Dial,
        }
    }
}

/// The state once a friend is to be added: a bootstrap node makes the hash table be used; any
/// other friend whose id is known becomes a contact, and its address is kept.
pub open spec fn after_adding(s: StateModel, addr: Seq<char>, bootstrap: bool, parsed: Parsed)
    -> StateModel {
    match parsed {
        Err(error) => logged(s, "[加好友] 地址解析失败 "@ + addr + "："@ + error),
        Ok((last, rest)) => if bootstrap {
            let s1 = StateModel { dht_enabled: true, ..s };
            match last {
                Some(_) => s1,
                None => logged(s1, "[DHT] 引导地址须带 /p2p/<id>，已跳过"@),
            }
        } else {
            match last {
                Some(peer) => logged(
                    doing(
                        with_peer(
                            s,
                            peer,
                            PeerModel { last_addr: Some(addr), ..peer_of(s, peer) },
                        ),
                        EffectModel::SaveFriend(addr),
                    ),
                    "[好友] 已保存，重启后自动直连"@,
                ),
                None => s,
            }
        },
    }
}

/// What adding a friend calls for.
pub open spec fn friend_action(bootstrap: bool, parsed: Parsed) -> FriendActionModel {
    match parsed {
        Err(_) => FriendActionModel::Nothing,
        Ok((last, rest)) => if bootstrap {
            match last {
                Some(peer) => FriendActionModel::Join(BootstrapModel { peer, addr: rest }),
                None => FriendActionModel::Nothing,
            }
        } else {
            FriendActionModel::Dial
        },
    }
}

/// Adds a friend, given what reading its address gave.
pub fn add_friend_at(
    state: &mut AppState,
    addr: &str,
    bootstrap: bool,
    parsed: Result<Address, String>,
) -> (action: FriendAction)
    ensures
        final(state)@ == after_adding(old(state)@, addr@, bootstrap, parsed_view(parsed)),
        action@ == friend_action(bootstrap, parsed_view(parsed)),
{
    match parsed {
        Err(error) => {
            let line = join4("[加好友] 地址解析失败 ", addr, "：", &error);
            state.log(line);
            FriendAction::Nothing
        },
        Ok(address) => {
            if bootstrap {
                state.dht_enabled = true;
                match split_p2p(address) {
                    Some((peer, rest)) => FriendAction::Join(Bootstrap { peer, addr: rest }),
                    None => {
                        state.log_str("[DHT] 引导地址须带 /p2p/<id>，已跳过");
                        FriendAction::Nothing
                    },
                }
            } else {
                if let Some((peer, _)) = split_p2p(address) {
                    let info = state.peer_or_insert(&peer);
                    info.last_addr = Some(addr.to_owned());
                    state.push_effect(Effect::SaveFriend(addr.to_owned()));
                    state.log_str("[好友] 已保存，重启后自动直连");
                }
                FriendAction::Dial
            }
        },
    }
}

/// Adds a friend by its address: to be dialled, or as a bootstrap node of the hash table.
pub fn add_friend(state: &mut AppState, addr: &str, bootstrap: bool) -> (action: FriendAction)
    ensures
        final(state)@ == after_adding(old(state)@, addr@, bootstrap, address_of(addr@)),
        action@ == friend_action(bootstrap, address_of(addr@)),
{
    let parsed = Address::parse(addr);
    assert(parsed_view(parsed) == address_of(addr@));
    add_friend_at(state, addr, bootstrap, parsed)
}

/// The state once joining the hash table through a new bootstrap node has begun or failed: either
/// way the node is kept.
pub open spec fn after_joining(s: StateModel, addr: Seq<char>, error: Option<Seq<char>>)
    -> StateModel {
    logged(
        doing(
            logged(
                s,
                match error {
                    None => "[DHT] 已添加引导站点并向 DHT 发起 bootstrap"@,
                    Some(e) => "[DHT] bootstrap 失败："@ + e,
                },
            ),
            EffectModel::SaveBootstrap(addr),
        ),
        "[DHT] 引导站点已保存，重启后自动加入"@,
    )
}

/// Takes in how joining the hash table through a new bootstrap node has begun.
pub fn on_friend_bootstrap(state: &mut AppState, addr: &str, outcome: Result<(), String>)
    ensures
        final(state)@ == after_joining(old(state)@, addr@, error_of(outcome)),
{
    match &outcome {
        Ok(_) => state.log_str("[DHT] 已添加引导站点并向 DHT 发起 bootstrap"),
        Err(error) => {
            let line = join2("[DHT] bootstrap 失败：", error);
            state.log(line);
        },
    }
    state.push_effect(Effect::SaveBootstrap(addr.to_owned()));
    state.log_str("[DHT] 引导站点已保存，重启后自动加入");
}

/// How an address of this node is shown.
pub open spec fn address_lines(addrs: Seq<Seq<char>>) -> Seq<Seq<char>> {
    Seq::new(addrs.len(), |i: int| "[我的信息] 监听地址: "@ + addrs[i])
}

/// The state once the node's own id and addresses are shown.
pub open spec fn my_addr_shown(s: StateModel) -> StateModel {
    let s1 = logged(s, "[我的信息] PeerId: "@ + s.local_peer_id);
    if s.listen_addrs.len() == 0 {
        noticed(
            logged(s1, "[我的信息] 尚未获取到监听地址（可能还在初始化）"@),
            "ID: "@ + shortened(s.local_peer_id, 8),
        )
    } else {
        noticed(
            logged_all(s1, address_lines(s.listen_addrs)),
            "地址已显示在日志页: "@ + shortened(s.listen_addrs[0], 40),
        )
    }
}

/// Shows the node's own id and addresses.
pub fn show_my_addr(state: &mut AppState)
    ensures
        final(state)@ == my_addr_shown(old(state)@),
{
    let ghost before = state@;
    let line = join2("[我的信息] PeerId: ", &state.local_peer_id.text);
    state.log(line);
    if state.listen_addrs.len() == 0 {
        state.log_str("[我的信息] 尚未获取到监听地址（可能还在初始化）");
        let toast = join2("ID: ", shorten(&state.local_peer_id.text, 8));
        state.notice(&toast);
    } else {
        let ghost start = state@;
        let ghost lines = address_lines(before.listen_addrs);
        let addrs = dup_all(&state.listen_addrs);
        let mut i: usize = 0;
        assert(lines.take(0) =~= Seq::<Seq<char>>::empty());
        while i < addrs.len()
            invariant
                i <= addrs.len(),
                views(addrs@) == before.listen_addrs,
                lines == address_lines(before.listen_addrs),
                state@ == logged_all(start, lines.take(i as int)),
            decreases addrs.len() - i,
        {
            let ghost now = lines.take(i + 1);
            proof {
                assert(now.drop_last() =~= lines.take(i as int));
                assert(now.last() == lines[i as int]);
                assert(addrs[i as int]@ == before.listen_addrs[i as int]);
            }
            let line = join2("[我的信息] 监听地址: ", &addrs[i]);
            state.log(line);
            i = i + 1;
        }
        assert(lines.take(lines.len() as int) =~= lines);
        assert(addrs[0]@ == before.listen_addrs[0]);
        let toast = join2("地址已显示在日志页: ", shorten(&addrs[0], 40));
        state.notice(&toast);
    }
}

/// At the start everybody is dialled whose address was given or is a friend's, and nobody else; and
/// every bootstrap node that was given or kept, and whose address names it, is joined there, and no
/// other.
pub open spec fn begins_with(
    cli: CliModel,
    config: ConfigModel,
    joins: Seq<BootstrapModel>,
    dials: Seq<Seq<char>>,
) -> bool {
    &&& forall|addr: Seq<char>| #[trigger]
        dials.contains(addr) <==> cli.dial.contains(addr) || config.friends.contains(addr)
    &&& forall|addr: Seq<char>, peer: Seq<char>, rest: Seq<char>|
        (cli.bootstrap.contains(addr) || config.bootstrap_nodes.contains(addr))
            && #[trigger] stands_for(addr, peer, rest) ==> joins.contains(
            BootstrapModel { peer, addr: rest },
        )
    &&& forall|i: int|
        0 <= i < joins.len() ==> comes_from(cli.bootstrap, #[trigger] joins[i]) || comes_from(
            config.bootstrap_nodes,
            joins[i],
        )
}

/// One of the addresses is one of that node.
pub open spec fn comes_from(list: Seq<Seq<char>>, node: BootstrapModel) -> bool {
    exists|k: int| 0 <= k < list.len() && stands_for(#[trigger] list[k], node.peer, node.addr)
}

/// The address is one of that peer, at the rest of it.
pub open spec fn stands_for(addr: Seq<char>, peer: Seq<char>, rest: Seq<char>) -> bool {
    address_of(addr) == Parsed::Ok((Some(peer), rest))
}

proof fn lemma_joins(list: Seq<Seq<char>>)
    ensures
        forall|k: int, peer: Seq<char>, rest: Seq<char>|
            0 <= k < list.len() && #[trigger] stands_for(list[k], peer, rest) ==> joins_of(
                list,
            ).contains(BootstrapModel { peer, addr: rest }),
        forall|i: int|
            0 <= i < joins_of(list).len() ==> comes_from(list, #[trigger] joins_of(list)[i]),
        joins_of(list).len() <= list.len(),
    decreases list.len(),
{
    if list.len() > 0 {
        let front = list.drop_last();
        let before = joins_of(front);
        let after = joins_of(list);
        lemma_joins(front);
        assert forall|k: int, peer: Seq<char>, rest: Seq<char>|
            0 <= k < list.len() && #[trigger] stands_for(list[k], peer, rest) implies after.contains(
            BootstrapModel { peer, addr: rest },
        ) by {
            let node = BootstrapModel { peer, addr: rest };
            if k < front.len() {
                assert(stands_for(front[k], peer, rest));
                let i = choose|i: int| 0 <= i < before.len() && before[i] == node;
                assert(after[i] == node);
            } else {
                assert(after[before.len() as int] == node);
            }
        }
        assert forall|i: int| 0 <= i < after.len() implies comes_from(list, #[trigger] after[i]) by {
            if i < before.len() {
                assert(after[i] == before[i]);
                let k = choose|k: int|
                    0 <= k < front.len() && stands_for(
                        #[trigger] front[k],
                        before[i].peer,
                        before[i].addr,
                    );
                assert(stands_for(list[k], after[i].peer, after[i].addr));
            } else {
                assert(stands_for(list[list.len() - 1], after[i].peer, after[i].addr));
            }
        }
    }
}

proof fn lemma_in_either(first: Seq<Seq<char>>, second: Seq<Seq<char>>, value: Seq<char>)
    ensures
        (first + second).contains(value) <==> first.contains(value) || second.contains(value),
{
    let both = first + second;
    if both.contains(value) {
        let i = choose|i: int| 0 <= i < both.len() && both[i] == value;
        if i < first.len() {
            assert(first[i] == value);
        } else {
            assert(second[i - first.len()] == value);
        }
    }
    if first.contains(value) {
        let i = choose|i: int| 0 <= i < first.len() && first[i] == value;
        assert(both[i] == value);
    }
    if second.contains(value) {
        let i = choose|i: int| 0 <= i < second.len() && second[i] == value;
        assert(both[first.len() + i] == value);
    }
}

/// Nobody who is to be reached at the start is left out: friends and given addresses are dialled,
/// and the bootstrap nodes are joined; the hash table is used where it was asked for, or where
/// there is a bootstrap node, and not else.
pub proof fn law_start_reaches_out(cli: CliModel, config: ConfigModel)
    ensures
        begins_with(
            cli,
            config,
            if uses_dht(cli, config) {
                joins_of(bootstrap_list(cli, config))
            } else {
                Seq::empty()
            },
            dial_list(cli, config),
        ),
        uses_dht(cli, config) <==> cli.dht || cli.bootstrap.len() > 0 || config.bootstrap_nodes.len()
            > 0,
{
    let list = bootstrap_list(cli, config);
    let joins = if uses_dht(cli, config) {
        joins_of(list)
    } else {
        Seq::empty()
    };
    lemma_joins(list);
    assert forall|addr: Seq<char>| #[trigger] dial_list(cli, config).contains(addr)
        <==> cli.dial.contains(addr) || config.friends.contains(addr) by {
        lemma_in_either(cli.dial, config.friends, addr);
    }
    assert forall|addr: Seq<char>, peer: Seq<char>, rest: Seq<char>|
        (cli.bootstrap.contains(addr) || config.bootstrap_nodes.contains(addr))
            && #[trigger] stands_for(addr, peer, rest) implies joins.contains(
        BootstrapModel { peer, addr: rest },
    ) by {
        lemma_in_either(cli.bootstrap, config.bootstrap_nodes, addr);
        let k = choose|k: int| 0 <= k < list.len() && list[k] == addr;
        assert(stands_for(list[k], peer, rest));
    }
    assert forall|i: int| 0 <= i < joins.len() implies comes_from(cli.bootstrap, #[trigger] joins[i])
        || comes_from(config.bootstrap_nodes, joins[i]) by {
        assert(comes_from(list, joins_of(list)[i]));
        let k = choose|k: int|
            0 <= k < list.len() && stands_for(#[trigger] list[k], joins[i].peer, joins[i].addr);
        let n = cli.bootstrap.len();
        if k < n {
            assert(stands_for(cli.bootstrap[k], joins[i].peer, joins[i].addr));
        } else {
            assert(stands_for(config.bootstrap_nodes[k - n], joins[i].peer, joins[i].addr));
        }
    }
}

/// A friend that is added is dialled; where its address names it, it becomes a contact at that
/// address and the address is kept. A bootstrap node that is added makes the hash table be used, is
/// joined at the address that it has without its id, and is then kept. An address that cannot be
/// read changes no contact and calls for nothing. What is known of others stays.
pub proof fn law_friend_is_added(
    s: StateModel,
    addr: Seq<char>,
    parsed: Parsed,
    error: Option<Seq<char>>,
    other: Seq<char>,
)
    ensures
        ({
            let direct = after_adding(s, addr, false, parsed);
            let node = after_adding(s, addr, true, parsed);
            match parsed {
                Err(_) => {
                    &&& friend_action(false, parsed) is Nothing && friend_action(true, parsed) is Nothing
                    &&& direct.peers == s.peers && node.peers == s.peers
                    &&& direct.dht_enabled == s.dht_enabled && node.dht_enabled == s.dht_enabled
                },
                Ok((id, rest)) => {
                    &&& friend_action(false, parsed) is Dial
                    &&& id matches Some(peer) ==> {
                        &&& lookup(direct.peers, peer) matches Some(info) && info.last_addr == Some(addr)
                            && info.records == peer_of(s, peer).records && info.online == peer_of(
                            s,
                            peer,
                        ).online
                        &&& direct.effects.len() > s.effects.len() && direct.effects[s.effects.len() as int]
                            == EffectModel::SaveFriend(addr)
                        &&& other != peer ==> lookup(direct.peers, other) == lookup(s.peers, other)
                        &&& friend_action(true, parsed) matches FriendActionModel::Join(join)
                            && join.peer == peer && join.addr == rest
                    }
                    &&& id is None ==> direct.peers == s.peers && direct.effects == s.effects
                        && friend_action(true, parsed) is Nothing
                    &&& node.dht_enabled && node.peers == s.peers
                },
            }
        }),
        exists|i: int|
            0 <= i < after_joining(s, addr, error).effects.len() && #[trigger] after_joining(
                s,
                addr,
                error,
            ).effects[i] == EffectModel::SaveBootstrap(addr),
        after_joining(s, addr, error).peers == s.peers,
{
    if let Ok((Some(peer), rest)) = parsed {
        let info = PeerModel { last_addr: Some(addr), ..peer_of(s, peer) };
        lemma_lookup_put(s.peers, peer, info, peer);
        lemma_lookup_put(s.peers, peer, info, other);
    }
    let line = match error {
        None => "[DHT] 已添加引导站点并向 DHT 发起 bootstrap"@,
        Some(e) => "[DHT] bootstrap 失败："@ + e,
    };
    let n = logged(s, line).effects.len() as int;
    assert(after_joining(s, addr, error).effects[n] == EffectModel::SaveBootstrap(addr));
}

/// All the addresses of this node are shown, behind its id.
pub proof fn law_own_addresses_are_shown(s: StateModel)
    requires
        !s.tui_enabled,
    ensures
        my_addr_shown(s).effects.len() > s.effects.len(),
        my_addr_shown(s).effects[s.effects.len() as int] == EffectModel::Print(
            "[我的信息] PeerId: "@ + s.local_peer_id,
        ),
        forall|i: int|
            0 <= i < s.listen_addrs.len() ==> s.effects.len() + 1 + i < my_addr_shown(
                s,
            ).effects.len() && my_addr_shown(s).effects[s.effects.len() + 1 + i]
                == EffectModel::Print("[我的信息] 监听地址: "@ + #[trigger] s.listen_addrs[i]),
        my_addr_shown(s).peers == s.peers,
{
    let s1 = logged(s, "[我的信息] PeerId: "@ + s.local_peer_id);
    law_all_lines_are_logged(s1, address_lines(s.listen_addrs));
}

proof fn lemma_read_all(s: StateModel, list: Seq<Seq<char>>)
    requires
        !s.tui_enabled,
    ensures
        after_reading_all(s, list).effects.len() + joins_of(list).len() == s.effects.len()
            + list.len(),
        s == (StateModel { effects: s.effects, ..after_reading_all(s, list) }),
    decreases list.len(),
{
    if list.len() > 0 {
        lemma_read_all(s, list.drop_last());
    }
}

/// At the start every address of a bootstrap node that stands for none is told of, each with one
/// line, and with one more that no node is left to be joined. But for the lines nothing changes, and
/// whether the hash table is used.
pub proof fn law_start_tells_what_it_passes_over(s: StateModel, cli: CliModel, config: ConfigModel)
    requires
        !s.tui_enabled,
    ensures
        ({
            let after = planned(s, cli, config);
            let given = cli.bootstrap.len() + config.bootstrap_nodes.len();
            let joined = joins_of(bootstrap_list(cli, config)).len();
            &&& after.dht_enabled == (cli.dht || given > 0)
            &&& after.dht_enabled ==> after.effects.len() == s.effects.len() + given - joined + (
            if joined == 0 {
                1int
            } else {
                0
            })
            &&& !after.dht_enabled ==> after.effects == s.effects
            &&& s == (StateModel {
                effects: s.effects,
                dht_enabled: s.dht_enabled,
                ..after
            })
        }),
{
    let s1 = StateModel { dht_enabled: uses_dht(cli, config), ..s };
    lemma_read_all(s1, bootstrap_list(cli, config));
}

/// An address that cannot be used is told of, with the address itself; of one that can nothing is
/// said.
pub proof fn law_bad_addresses_are_told(s: StateModel, addr: Seq<char>, parsed: Parsed)
    requires
        !s.tui_enabled,
    ensures
        ({
            let after = after_reading(s, addr, parsed);
            let good = parsed matches Ok((id, _)) && id is Some;
            &&& good ==> after == s
            &&& !good ==> after.effects.len() == s.effects.len() + 1 && (
            after.effects.last() matches EffectModel::Print(line) && occurs_in(addr, line))
        }),
        ({
            let after = after_dial_read(s, addr, parsed);
            &&& parsed is Ok ==> after == s
            &&& parsed is Err ==> after.effects.len() == s.effects.len() + 1 && (
            after.effects.last() matches EffectModel::Print(line) && occurs_in(addr, line))
        }),
{
    let error = if let Err(e) = parsed {
        e
    } else {
        Seq::empty()
    };
    lemma_middle("[DHT] 引导地址缺少 /p2p/<id>，已跳过："@, addr, Seq::empty());
    assert("[DHT] 引导地址缺少 /p2p/<id>，已跳过："@ + addr + Seq::empty()
        =~= "[DHT] 引导地址缺少 /p2p/<id>，已跳过："@ + addr);
    lemma_middle("[DHT] 引导地址解析失败 "@, addr, "："@ + error);
    assert("[DHT] 引导地址解析失败 "@ + addr + ("："@ + error)
        =~= "[DHT] 引导地址解析失败 "@ + addr + "："@ + error);
    lemma_middle("[直连] 地址解析失败 "@, addr, "："@ + error);
    assert("[直连] 地址解析失败 "@ + addr + ("："@ + error) =~= "[直连] 地址解析失败 "@
        + addr + "："@ + error);
}

proof fn lemma_middle(before: Seq<char>, part: Seq<char>, after: Seq<char>)
    ensures
        occurs_in(part, before + part + after),
{
    let n = before.len() as int;
    assert((before + part + after).subrange(n, n + part.len()) =~= part);
    assert(stands_at(part, before + part + after, n));
}

/// A node that starts says its nickname and its id, and its public key in hexadecimal.
pub proof fn law_node_says_who_it_is(s: StateModel)
    requires
        !s.tui_enabled,
    ensures
        ({
            let after = announced(s);
            let n = s.effects.len() as int;
            &&& after.effects.len() == n + 3
            &&& after.effects.take(n) == s.effects
            &&& after.effects[n] matches EffectModel::Print(line) && occurs_in(s.nickname, line)
                && occurs_in(s.local_peer_id, line)
            &&& after.effects[n + 2] matches EffectModel::Print(line) && occurs_in(
                hex_text(s.crypto.pubkey),
                line,
            )
            &&& s == (StateModel { effects: s.effects, ..after })
        }),
{
    let start = "[启动] 昵称: "@;
    let middle = ", PeerID: "@;
    lemma_middle(start, s.nickname, middle + s.local_peer_id);
    assert(start + s.nickname + (middle + s.local_peer_id) =~= start + s.nickname + middle
        + s.local_peer_id);
    lemma_middle(start + s.nickname + middle, s.local_peer_id, Seq::empty());
    assert(start + s.nickname + middle + s.local_peer_id + Seq::empty() =~= start + s.nickname
        + middle + s.local_peer_id);
    let key = hex_text(s.crypto.pubkey);
    lemma_middle("[启动] 应用层 X25519 公钥: "@, key, Seq::empty());
    assert("[启动] 应用层 X25519 公钥: "@ + key + Seq::empty()
        =~= "[启动] 应用层 X25519 公钥: "@ + key);
    assert(announced(s).effects.take(s.effects.len() as int) =~= s.effects);
}

} // verus!
