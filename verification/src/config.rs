//! What outlives the program: the configuration with this node's identity, and the conversations.
use vstd::prelude::*;
use crate::chat::{ChatRecord, RecordModel};
use crate::crypto::{
    appkey_from_b64, appkey_to_b64, base64_decode, base64_encode, base64_outcome, base64_text,
    kept_secret, AppCrypto, CryptoModel, Kept,
};
use crate::identity::{keypair_outcome, peer_id_outcome, Keypair, KeypairModel, PeerId};
use crate::table::{lemma_views_push, opt, views};
use crate::text::{ends, ends_with, join4, trim_end_matches, trimmed_end};

verus! {

/// The configuration.
#[derive(Debug, PartialEq)]
pub struct AppConfig {
    /// The nickname of this node.
    pub nickname: String,
    /// The identity key pair, encoded, in base64. The node's id is computed from it.
    pub keypair_b64: String,
    /// The application layer's secret key, in base64.
    pub appkey_b64: String,
    /// The addresses of friends, to be dialled at the start.
    pub friends: Vec<String>,
    /// The addresses of bootstrap nodes, to be joined at the start.
    pub bootstrap_nodes: Vec<String>,
}

/// What an [`AppConfig`] holds.
#[verifier::ext_equal]
pub struct ConfigModel {
    pub nickname: Seq<char>,
    pub keypair_b64: Seq<char>,
    pub appkey_b64: Seq<char>,
    pub friends: Seq<Seq<char>>,
    pub bootstrap_nodes: Seq<Seq<char>>,
}

impl View for AppConfig {
    type V = ConfigModel;

    open spec fn view(&self) -> ConfigModel {
        ConfigModel {
            nickname: self.nickname@,
            keypair_b64: self.keypair_b64@,
            appkey_b64: self.appkey_b64@,
            friends: views(self.friends@),
            bootstrap_nodes: views(self.bootstrap_nodes@),
        }
    }
}

/// Why a kept identity could not be restored.
#[derive(Debug, PartialEq)]
pub enum IdentityError {
    /// The text is not base64; the reason in words.
    Base64(String),
    /// The bytes are no key pair; the reason in words.
    Keypair(String),
}

/// What an [`IdentityError`] says.
pub enum IdentityErrorModel {
    Base64(Seq<char>),
    Keypair(Seq<char>),
}

impl View for IdentityError {
    type V = IdentityErrorModel;

    open spec fn view(&self) -> IdentityErrorModel {
        match self {
            IdentityError::Base64(text) => IdentityErrorModel::Base64(text@),
            IdentityError::Keypair(text) => IdentityErrorModel::Keypair(text@),
        }
    }
}

/// What restoring an identity gives.
pub type Restored = Result<KeypairModel, IdentityErrorModel>;

/// The identity that a text keeps, or why it keeps none.
pub open spec fn identity_of(text: Seq<char>) -> Restored {
    match base64_outcome(text) {
        Err(error) => Err(IdentityErrorModel::Base64(error)),
        Ok(bytes) => match keypair_outcome(bytes) {
            Err(error) => Err(IdentityErrorModel::Keypair(error)),
            Ok(keys) => Ok(KeypairModel { encoded: keys.0, peer_id: keys.1 }),
        },
    }
}

/// The identity as a text, to be kept. The text restores the same identity.
pub fn keypair_to_b64(keys: &Keypair) -> (text: String)
    ensures
        text@ == base64_text(keys@.encoded),
        keys.wf() ==> identity_of(text@) == Restored::Ok(keys@),
{
    base64_encode(&keys.encoded)
}

/// The identity that a kept text restores.
pub fn keypair_from_b64(text: &str) -> (result: Result<Keypair, IdentityError>)
    ensures
        match result {
            Ok(keys) => keys.wf() && identity_of(text@) == Restored::Ok(keys@),
            Err(error) => identity_of(text@) == Restored::Err(error@),
        },
{
    match base64_decode(text) {
        Err(error) => Err(IdentityError::Base64(error)),
        Ok(bytes) => {
            match Keypair::from_protobuf_encoding(&bytes) {
                Err(error) => Err(IdentityError::Keypair(error)),
                Ok(keys) => Ok(keys),
            }
        },
    }
}

/// What the program starts with.
pub struct Loaded {
    pub config: AppConfig,
    /// The identity of this node.
    pub keypair: Keypair,
    /// The application layer's key pair.
    pub app: AppCrypto,
    /// Whether the configuration is new or was changed, and is to be written.
    pub dirty: bool,
}

/// The name of who has not chosen one.
pub open spec fn nickname_or(arg: Option<Seq<char>>, otherwise: Seq<char>) -> Seq<char> {
    match arg {
        Some(name) => name,
        None => otherwise,
    }
}

/// A configuration that holds an identity is kept: a nickname that was asked for replaces its
/// nickname, and an application key that does not restore is replaced by a new one. It is written
/// only where it was changed.
pub open spec fn is_kept(
    config: ConfigModel,
    arg: Option<Seq<char>>,
    after: ConfigModel,
    keypair: KeypairModel,
    app: CryptoModel,
    dirty: bool,
) -> bool {
    &&& identity_of(config.keypair_b64) == Restored::Ok(keypair)
    &&& after.nickname == nickname_or(arg, config.nickname)
    &&& after.keypair_b64 == config.keypair_b64
    &&& after.friends == config.friends
    &&& after.bootstrap_nodes == config.bootstrap_nodes
    &&& match kept_secret(config.appkey_b64) {
        Ok(secret) => {
            &&& app.secret == secret
            &&& after.appkey_b64 == config.appkey_b64
            &&& dirty == (arg is Some)
        },
        Err(_) => {
            &&& after.appkey_b64 == base64_text(app.secret)
            &&& dirty
        },
    }
}

/// A new configuration: new keys, the nickname that was asked for or the default one, and nobody
/// known. It is written.
pub open spec fn is_first(
    arg: Option<Seq<char>>,
    after: ConfigModel,
    keypair: KeypairModel,
    app: CryptoModel,
    dirty: bool,
) -> bool {
    &&& after.nickname == nickname_or(arg, "匿名用户"@)
    &&& after.keypair_b64 == base64_text(keypair.encoded)
    &&& after.appkey_b64 == base64_text(app.secret)
    &&& after.friends == Seq::<Seq<char>>::empty()
    &&& after.bootstrap_nodes == Seq::<Seq<char>>::empty()
    &&& dirty
}

/// The configuration holds an identity.
pub open spec fn holds_identity(existing: Option<ConfigModel>) -> bool {
    existing matches Some(config) && identity_of(config.keypair_b64) is Ok
}

/// Takes up the configuration that was read, or begins a new one where there is none or where its
/// identity cannot be restored. The configuration that comes out restores the identity and the
/// application key that come out with it.
pub fn load_or_create_config(existing: Option<AppConfig>, nickname_arg: Option<String>) -> (loaded:
    Loaded)
    ensures
        loaded.keypair.wf(),
        loaded.app.wf(),
        holds_identity(opt(existing)) ==> is_kept(
            opt(existing)->Some_0,
            opt(nickname_arg),
            loaded.config@,
            loaded.keypair@,
            loaded.app@,
            loaded.dirty,
        ),
        !holds_identity(opt(existing)) ==> is_first(
            opt(nickname_arg),
            loaded.config@,
            loaded.keypair@,
            loaded.app@,
            loaded.dirty,
        ),
        identity_of(loaded.config@.keypair_b64) == Restored::Ok(loaded.keypair@),
        kept_secret(loaded.config@.appkey_b64) == Kept::Ok(loaded.app@.secret),
{
    if let Some(mut config) = existing {
        if let Ok(keypair) = keypair_from_b64(&config.keypair_b64) {
            let mut dirty = false;
            if let Some(name) = &nickname_arg {
                config.nickname = name.clone();
                dirty = true;
            }
            let app = match appkey_from_b64(&config.appkey_b64) {
                Ok(app) => app,
                Err(_) => {
                    let app = AppCrypto::new();
                    config.appkey_b64 = appkey_to_b64(&app);
                    dirty = true;
                    app
                },
            };
            return Loaded { config, keypair, app, dirty };
        }
    }
    let keypair = Keypair::generate_ed25519();
    let app = AppCrypto::new();
    let nickname = match nickname_arg {
        Some(name) => name,
        None => "匿名用户".to_owned(),
    };
    let config = AppConfig {
        nickname,
        keypair_b64: keypair_to_b64(&keypair),
        appkey_b64: appkey_to_b64(&app),
        friends: Vec::new(),
        bootstrap_nodes: Vec::new(),
    };
    assert(config@.friends =~= Seq::<Seq<char>>::empty());
    assert(config@.bootstrap_nodes =~= Seq::<Seq<char>>::empty());
    Loaded { config, keypair, app, dirty: true }
}

/// Starting again from the configuration that an earlier start left, under whatever nickname, gives
/// the same identity and the same application key.
pub proof fn law_identity_survives(
    config: ConfigModel,
    keypair: KeypairModel,
    app: CryptoModel,
    arg: Option<Seq<char>>,
    after: ConfigModel,
    keypair_again: KeypairModel,
    app_again: CryptoModel,
    dirty: bool,
)
    requires
        identity_of(config.keypair_b64) == Restored::Ok(keypair),
        kept_secret(config.appkey_b64) == Kept::Ok(app.secret),
        is_kept(config, arg, after, keypair_again, app_again, dirty),
    ensures
        holds_identity(Some(config)),
        keypair_again == keypair,
        app_again.secret == app.secret,
        dirty == (arg is Some),
{
}

/// Changes the nickname in the configuration.
pub fn save_nickname(config: &mut AppConfig, new_nickname: &str)
    ensures
        final(config)@ == (ConfigModel { nickname: new_nickname@, ..old(config)@ }),
{
    config.nickname = new_nickname.to_owned();
}

/// The list with the address at its end, unless it is there already.
pub open spec fn with_address(list: Seq<Seq<char>>, addr: Seq<char>) -> Seq<Seq<char>> {
    if list.contains(addr) {
        list
    } else {
        list.push(addr)
    }
}

/// An address is added behind those that are there; adding it a second time changes nothing, and no
/// address comes to stand twice.
pub proof fn law_address_once(list: Seq<Seq<char>>, addr: Seq<char>)
    ensures
        with_address(list, addr).contains(addr),
        with_address(with_address(list, addr), addr) == with_address(list, addr),
        list.no_duplicates() ==> with_address(list, addr).no_duplicates(),
        forall|other: Seq<char>| #[trigger]
            list.contains(other) ==> with_address(list, addr).contains(other),
        list.is_prefix_of(with_address(list, addr)),
        with_address(list, addr).len() <= list.len() + 1,
{
    let after = with_address(list, addr);
    if !list.contains(addr) {
        assert(after[list.len() as int] == addr);
        assert forall|other: Seq<char>| #[trigger] list.contains(other) implies after.contains(
            other,
        ) by {
            let i = choose|i: int| 0 <= i < list.len() && list[i] == other;
            assert(after[i] == other);
        }
    }
}

fn add_address(list: &mut Vec<String>, addr: &str) -> (added: bool)
    ensures
        views(final(list)@) == with_address(views(old(list)@), addr@),
        added == !views(old(list)@).contains(addr@),
{
    let new = addr.to_owned();
    let mut i: usize = 0;
    while i < list.len()
        invariant
            i <= list.len(),
            *list == *old(list),
            new@ == addr@,
            forall|j: int| 0 <= j < i ==> (#[trigger] list[j])@ != addr@,
        decreases list.len() - i,
    {
        if list[i] == new {
            assert(views(list@)[i as int] == addr@);
            return false;
        }
        i = i + 1;
    }
    proof {
        if views(list@).contains(addr@) {
            let j = choose|j: int| 0 <= j < list.len() && views(list@)[j] == addr@;
            assert(list[j]@ == addr@);
        }
        lemma_views_push(list@, new);
    }
    list.push(new);
    true
}

/// Adds the address of a friend, once; says whether the configuration is to be written.
pub fn add_friend(config: &mut AppConfig, addr: &str) -> (added: bool)
    ensures
        final(config)@ == (ConfigModel {
            friends: with_address(old(config)@.friends, addr@),
            ..old(config)@
        }),
        added == !old(config)@.friends.contains(addr@),
{
    add_address(&mut config.friends, addr)
}

/// Adds the address of a bootstrap node, once; says whether the configuration is to be written.
pub fn add_bootstrap_node(config: &mut AppConfig, addr: &str) -> (added: bool)
    ensures
        final(config)@ == (ConfigModel {
            bootstrap_nodes: with_address(old(config)@.bootstrap_nodes, addr@),
            ..old(config)@
        }),
        added == !old(config)@.bootstrap_nodes.contains(addr@),
{
    add_address(&mut config.bootstrap_nodes, addr)
}

/// The directory of the conversations.
pub fn conv_dir() -> (dir: String)
    ensures
        dir@ == "conversations"@,
{
    "conversations".to_owned()
}

/// The name of a peer's conversation file.
pub open spec fn conv_name(peer_id: Seq<char>) -> Seq<char> {
    peer_id + ".json"@
}

/// The path of a peer's conversation file.
pub open spec fn path_of(peer_id: Seq<char>) -> Seq<char> {
    "conversations"@ + "/"@ + peer_id + ".json"@
}

/// The path of a peer's conversation file.
pub fn conv_path(peer_id: &str) -> (path: String)
    ensures
        path@ == path_of(peer_id@),
{
    let dir = conv_dir();
    join4(&dir, "/", peer_id, ".json")
}

/// A conversation as it is kept, one file for each peer.
#[derive(Debug, PartialEq)]
pub struct ConversationFile {
    /// The peer's id.
    pub peer_id: String,
    /// The nickname that was known last.
    pub nickname: String,
    /// The address that was known last, for display.
    pub last_addr: Option<String>,
    /// The conversation.
    pub records: Vec<ChatRecord>,
}

/// What a [`ConversationFile`] holds.
#[verifier::ext_equal]
pub struct ConversationModel {
    pub peer_id: Seq<char>,
    pub nickname: Seq<char>,
    pub last_addr: Option<Seq<char>>,
    pub records: Seq<RecordModel>,
}

impl View for ConversationFile {
    type V = ConversationModel;

    open spec fn view(&self) -> ConversationModel {
        ConversationModel {
            peer_id: self.peer_id@,
            nickname: self.nickname@,
            last_addr: opt(self.last_addr),
            records: views(self.records@),
        }
    }
}

/// A conversation in which nothing was said.
pub open spec fn nothing_said(id: Seq<char>) -> ConversationModel {
    ConversationModel {
        peer_id: id,
        nickname: Seq::empty(),
        last_addr: None,
        records: Seq::empty(),
    }
}

/// A conversation in which nothing was said.
pub fn empty_conv(id: &str) -> (conv: ConversationFile)
    ensures
        conv@ == nothing_said(id@),
{
    ConversationFile {
        peer_id: id.to_owned(),
        nickname: String::new(),
        last_addr: None,
        records: Vec::new(),
    }
}

/// The conversation with a peer: what its file holds, or an empty one where there is no file or it
/// cannot be read.
pub fn load_conversation(peer: &PeerId, read: Option<ConversationFile>) -> (conv: ConversationFile)
    ensures
        conv@ == (match opt(read) {
            Some(conv) => conv,
            None => nothing_said(peer@),
        }),
{
    match read {
        Some(conv) => conv,
        None => empty_conv(&peer.text),
    }
}

/// Where a conversation is to be written: nowhere, unless its peer id is one.
pub fn save_conversation(conv: &ConversationFile) -> (path: Option<String>)
    ensures
        path is Some <==> peer_id_outcome(conv@.peer_id) is Some,
        path matches Some(p) ==> p@ == path_of(conv@.peer_id),
{
    match PeerId::parse(&conv.peer_id) {
        Some(_) => Some(conv_path(&conv.peer_id)),
        None => None,
    }
}

/// The peer whose conversation a file name stands for.
pub open spec fn peer_of_name(name: Seq<char>) -> Option<Seq<char>> {
    if ends(name, ".json"@) {
        peer_id_outcome(trimmed_end(name, ".json"@))
    } else {
        None
    }
}

/// The peers for which the file names stand, in their order.
pub open spec fn peers_of_names(names: Seq<Seq<char>>) -> Seq<Seq<char>>
    decreases names.len(),
{
    if names.len() == 0 {
        Seq::empty()
    } else {
        let before = peers_of_names(names.drop_last());
        match peer_of_name(names.last()) {
            Some(id) => before.push(id),
            None => before,
        }
    }
}

/// The peers whose conversations are kept, from the names of the files in the directory.
pub fn list_known_peers(names: &Vec<String>) -> (peers: Vec<PeerId>)
    ensures
        views(peers@) == peers_of_names(views(names@)),
        forall|i: int| 0 <= i < peers.len() ==> (#[trigger] peers[i]).wf(),
        lists_named(views(names@), views(peers@)),
{
    proof {
        law_known_peers_are_listed(views(names@));
    }
    let ghost all = views(names@);
    let mut peers: Vec<PeerId> = Vec::new();
    let mut i: usize = 0;
    proof {
        assert(all.take(0) =~= Seq::<Seq<char>>::empty());
        assert(views(peers@) =~= Seq::<Seq<char>>::empty());
        reveal_strlit(".json");
    }
    while i < names.len()
        invariant
            i <= names.len(),
            all == views(names@),
            ".json"@.len() > 0,
            views(peers@) == peers_of_names(all.take(i as int)),
            forall|j: int| 0 <= j < peers.len() ==> (#[trigger] peers[j]).wf(),
        decreases names.len() - i,
    {
        let ghost now = all.take(i + 1);
        proof {
            assert(now.drop_last() =~= all.take(i as int));
            assert(now.last() == names[i as int]@);
        }
        let name = names[i].as_str();
        if ends_with(name, ".json") {
            if let Some(id) = PeerId::parse(trim_end_matches(name, ".json")) {
                proof {
                    lemma_views_push(peers@, id);
                }
                peers.push(id);
            }
        }
        i = i + 1;
    }
    assert(all.take(all.len() as int) =~= all);
    peers
}

/// The file of a conversation is found again: its name stands for the peer whose conversation it
/// holds.
pub proof fn law_conversation_found(peer: PeerId)
    requires
        peer.wf(),
    ensures
        peer_of_name(conv_name(peer@)) == Some(peer@),
        path_of(peer@) == "conversations"@ + "/"@ + conv_name(peer@),
{
    reveal_strlit(".json");
    let suffix = ".json"@;
    let name = conv_name(peer@);
    assert(name.subrange(name.len() - suffix.len(), name.len() as int) =~= suffix);
    assert(name.take(name.len() - suffix.len()) =~= peer@);
    if ends(peer@, suffix) {
        let p = peer@.len() - suffix.len();
        assert(peer@.subrange(p, p + suffix.len())[0] == suffix[0]);
        assert(peer@[p] == '.');
    }
    assert(trimmed_end(peer@, suffix) == peer@);
    reveal_with_fuel(trimmed_end, 2);
    assert(path_of(peer@) =~= "conversations"@ + "/"@ + conv_name(peer@));
}

/// The peers are those for which the names of the files stand, every one of them and no other.
pub open spec fn lists_named(names: Seq<Seq<char>>, peers: Seq<Seq<char>>) -> bool {
    &&& forall|k: int|
        0 <= k < names.len() ==> (peer_of_name(#[trigger] names[k]) matches Some(id)
            ==> peers.contains(id))
    &&& forall|i: int|
        0 <= i < peers.len() ==> exists|k: int|
            0 <= k < names.len() && peer_of_name(#[trigger] names[k]) == Some(#[trigger] peers[i])
    &&& peers.len() <= names.len()
}

/// Of every file that holds a conversation the peer is listed, and no other peer: no conversation
/// is passed over.
pub proof fn law_known_peers_are_listed(names: Seq<Seq<char>>)
    ensures
        lists_named(names, peers_of_names(names)),
    decreases names.len(),
{
    if names.len() > 0 {
        let front = names.drop_last();
        let before = peers_of_names(front);
        let after = peers_of_names(names);
        law_known_peers_are_listed(front);
        assert forall|k: int| 0 <= k < names.len() implies (peer_of_name(
            #[trigger] names[k],
        ) matches Some(id) ==> after.contains(id)) by {
            if let Some(id) = peer_of_name(names[k]) {
                if k < front.len() {
                    assert(front[k] == names[k]);
                    let i = choose|i: int| 0 <= i < before.len() && before[i] == id;
                    assert(after[i] == id);
                } else {
                    assert(after[before.len() as int] == id);
                }
            }
        }
        assert forall|i: int| 0 <= i < after.len() implies exists|k: int|
            0 <= k < names.len() && peer_of_name(#[trigger] names[k]) == Some(#[trigger] after[i]) by {
            if i < before.len() {
                assert(after[i] == before[i]);
                let k = choose|k: int|
                    0 <= k < front.len() && peer_of_name(#[trigger] front[k]) == Some(before[i]);
                assert(names[k] == front[k]);
            } else {
                assert(peer_of_name(names[names.len() - 1]) == Some(after[i]));
            }
        }
    }
}

/// Each conversation is kept in a file of its own.
pub proof fn law_conversations_are_kept_apart(a: Seq<char>, b: Seq<char>)
    requires
        a != b,
    ensures
        path_of(a) != path_of(b),
        conv_name(a) != conv_name(b),
{
    let start = "conversations"@ + "/"@;
    let n = start.len() as int;
    let tail = ".json"@.len() as int;
    assert(conv_name(a).take(conv_name(a).len() - tail) =~= a);
    assert(conv_name(b).take(conv_name(b).len() - tail) =~= b);
    assert(path_of(a).subrange(n, path_of(a).len() - tail) =~= a);
    assert(path_of(b).subrange(n, path_of(b).len() - tail) =~= b);
}

/// A nickname that is asked for is taken, else the one that there is; keeping the configuration
/// loses no friend and no bootstrap node, and what does not change is not written again.
pub proof fn law_configuration_is_kept(
    config: ConfigModel,
    arg: Option<Seq<char>>,
    after: ConfigModel,
    keypair: KeypairModel,
    app: CryptoModel,
    dirty: bool,
)
    requires
        is_kept(config, arg, after, keypair, app, dirty),
    ensures
        arg matches Some(name) ==> after.nickname == name && dirty,
        arg is None ==> after.nickname == config.nickname,
        forall|addr: Seq<char>| #[trigger]
            config.friends.contains(addr) ==> after.friends.contains(addr),
        forall|addr: Seq<char>| #[trigger]
            config.bootstrap_nodes.contains(addr) ==> after.bootstrap_nodes.contains(addr),
        !dirty ==> after == config,
        identity_of(after.keypair_b64) == identity_of(config.keypair_b64),
{
}

} // verus!
