use peerchat::chat::ChatRecord;
use peerchat::config::{
    add_bootstrap_node, add_friend, conv_dir, conv_path, empty_conv, keypair_from_b64,
    keypair_to_b64, list_known_peers, load_conversation, load_or_create_config, save_conversation,
    save_nickname, AppConfig, ConversationFile, IdentityError,
};
use peerchat::crypto::{appkey_from_b64, appkey_to_b64};
use peerchat::identity::{split_p2p, Address, Keypair, PeerId};

const PEER: &str = "12D3KooWQYV9dGMFoRzNStwpXztXaBUjtPqi6aU76ZgUriHhKust";

fn config() -> AppConfig {
    let loaded = load_or_create_config(None, Some("小明".to_string()));
    AppConfig {
        nickname: "旧名".to_string(),
        keypair_b64: loaded.config.keypair_b64,
        appkey_b64: loaded.config.appkey_b64,
        friends: vec!["/ip4/1.2.3.4/tcp/1".to_string()],
        bootstrap_nodes: vec![],
    }
}

#[test]
fn first_start_makes_a_new_configuration() {
    let loaded = load_or_create_config(None, None);
    assert!(loaded.dirty);
    assert_eq!(loaded.config.nickname, "匿名用户");
    assert!(loaded.config.friends.is_empty());
    assert!(loaded.config.bootstrap_nodes.is_empty());
    assert_eq!(loaded.config.keypair_b64, keypair_to_b64(&loaded.keypair));
    assert_eq!(loaded.config.appkey_b64, appkey_to_b64(&loaded.app));
    let named = load_or_create_config(None, Some("小红".to_string()));
    assert_eq!(named.config.nickname, "小红");
    assert_ne!(named.keypair.peer_id, loaded.keypair.peer_id);
}

#[test]
fn identity_survives_a_restart() {
    let first = load_or_create_config(None, None);
    let id = PeerId { text: first.keypair.peer_id.text.clone() };
    let secret = *first.app.secret_bytes();
    let again = load_or_create_config(Some(first.config), None);
    assert!(!again.dirty);
    assert_eq!(again.keypair.peer_id, id);
    assert_eq!(again.app.secret_bytes(), &secret);
    let renamed = load_or_create_config(Some(again.config), Some("新名".to_string()));
    assert!(renamed.dirty);
    assert_eq!(renamed.config.nickname, "新名");
    assert_eq!(renamed.keypair.peer_id, id);
    assert_eq!(renamed.app.secret_bytes(), &secret);
}

#[test]
fn kept_configuration_keeps_what_it_holds() {
    let loaded = load_or_create_config(Some(config()), None);
    assert!(!loaded.dirty);
    assert_eq!(loaded.config.nickname, "旧名");
    assert_eq!(loaded.config.friends, vec!["/ip4/1.2.3.4/tcp/1".to_string()]);
}

#[test]
fn missing_application_key_is_replaced() {
    let mut broken = config();
    broken.appkey_b64 = String::new();
    let identity = keypair_from_b64(&broken.keypair_b64).unwrap().peer_id;
    let loaded = load_or_create_config(Some(broken), None);
    assert!(loaded.dirty);
    assert_eq!(loaded.keypair.peer_id, identity);
    let restored = appkey_from_b64(&loaded.config.appkey_b64).ok().unwrap();
    assert_eq!(restored.secret_bytes(), loaded.app.secret_bytes());
}

#[test]
fn broken_identity_begins_anew() {
    let mut broken = config();
    broken.keypair_b64 = "aGVsbG8=".to_string();
    let loaded = load_or_create_config(Some(broken), None);
    assert!(loaded.dirty);
    assert_eq!(loaded.config.nickname, "匿名用户");
    assert!(loaded.config.friends.is_empty());
}

#[test]
fn keypair_round_trip() {
    let keys = Keypair::generate_ed25519();
    let text = keypair_to_b64(&keys);
    assert_eq!(keypair_from_b64(&text).unwrap(), keys);
    assert_eq!(PeerId::parse(&keys.peer_id.text), Some(keys.peer_id));
}

#[test]
fn keypair_agrees_with_the_identity_library() {
    let theirs = libp2p::identity::Keypair::generate_ed25519();
    let encoded = theirs.to_protobuf_encoding().unwrap();
    let ours = Keypair::from_protobuf_encoding(&encoded).unwrap();
    assert_eq!(ours.peer_id.text, libp2p::PeerId::from(theirs.public()).to_string());
    assert_eq!(ours.encoded, encoded);
}

#[test]
fn keypair_errors() {
    assert!(matches!(keypair_from_b64("%"), Err(IdentityError::Base64(_))));
    assert!(matches!(keypair_from_b64("aGVsbG8="), Err(IdentityError::Keypair(_))));
}

#[test]
fn nickname_is_changed() {
    let mut cfg = config();
    save_nickname(&mut cfg, "阿强");
    assert_eq!(cfg.nickname, "阿强");
}

#[test]
fn addresses_are_added_once() {
    let mut cfg = config();
    assert!(add_friend(&mut cfg, "/ip4/9.9.9.9/tcp/5000"));
    assert!(!add_friend(&mut cfg, "/ip4/9.9.9.9/tcp/5000"));
    assert!(!add_friend(&mut cfg, "/ip4/1.2.3.4/tcp/1"));
    assert_eq!(cfg.friends, vec!["/ip4/1.2.3.4/tcp/1", "/ip4/9.9.9.9/tcp/5000"]);
    assert!(add_bootstrap_node(&mut cfg, "/ip4/1.2.3.4/tcp/1"));
    assert!(!add_bootstrap_node(&mut cfg, "/ip4/1.2.3.4/tcp/1"));
    assert_eq!(cfg.bootstrap_nodes, vec!["/ip4/1.2.3.4/tcp/1"]);
}

#[test]
fn conversation_paths() {
    assert_eq!(conv_dir(), "conversations");
    assert_eq!(conv_path("abc"), "conversations/abc.json");
    let conv = empty_conv(PEER);
    assert_eq!(conv.peer_id, PEER);
    assert_eq!(conv.nickname, "");
    assert_eq!(conv.last_addr, None);
    assert!(conv.records.is_empty());
    assert_eq!(save_conversation(&conv), Some(format!("conversations/{PEER}.json")));
    assert_eq!(save_conversation(&empty_conv("../x")), None);
}

#[test]
fn conversations_are_loaded_or_empty() {
    let id = PeerId { text: PEER.to_string() };
    assert_eq!(load_conversation(&id, None), empty_conv(PEER));
    let kept = ConversationFile {
        peer_id: PEER.to_string(),
        nickname: "小红".to_string(),
        last_addr: Some("/ip4/1.1.1.1/tcp/1".to_string()),
        records: vec![ChatRecord::text_at(true, "我", "你好", 1, "01:02:03")],
    };
    let conv = load_conversation(&id, Some(kept));
    assert_eq!(conv.nickname, "小红");
    assert_eq!(conv.records.len(), 1);
}

#[test]
fn known_peers_from_file_names() {
    let names: Vec<String> = [
        format!("{PEER}.json"),
        "notes.txt".to_string(),
        "nobody.json".to_string(),
        format!("{PEER}.json.json"),
        PEER.to_string(),
    ]
    .to_vec();
    let peers = list_known_peers(&names);
    let texts: Vec<&str> = peers.iter().map(|p| p.text.as_str()).collect();
    assert_eq!(texts, vec![PEER, PEER]);
}

#[test]
fn saved_conversation_is_listed_again() {
    let path = save_conversation(&empty_conv(PEER)).unwrap();
    let name = path.strip_prefix("conversations/").unwrap().to_string();
    assert_eq!(list_known_peers(&vec![name])[0].text, PEER);
}

#[test]
fn peer_ids() {
    assert_eq!(PeerId::parse(PEER), Some(PeerId { text: PEER.to_string() }));
    assert_eq!(PeerId::parse("not an id"), None);
    assert_eq!(PeerId::parse(""), None);
}

#[test]
fn addresses_are_split() {
    let text = format!("/ip4/1.2.3.4/tcp/4001/p2p/{PEER}");
    let address = Address::parse(&text).unwrap();
    let (peer, rest) = split_p2p(address).unwrap();
    assert_eq!(peer.text, PEER);
    assert_eq!(rest, "/ip4/1.2.3.4/tcp/4001");
    let plain = Address::parse("/ip4/1.2.3.4/tcp/4001").unwrap();
    let texts: Vec<&str> = plain.parts.iter().map(|p| p.text.as_str()).collect();
    assert_eq!(texts, vec!["/ip4/1.2.3.4", "/tcp/4001"]);
    assert_eq!(split_p2p(plain), None);
    // an id that is followed by something does not count
    let relayed = format!("/ip4/1.2.3.4/tcp/4001/p2p/{PEER}/p2p-circuit");
    let address = Address::parse(&relayed).unwrap();
    assert_eq!(address.parts[2].peer, Some(PeerId { text: PEER.to_string() }));
    let whole: String = address.parts.iter().map(|p| p.text.as_str()).collect();
    assert_eq!(whole, relayed);
    assert_eq!(split_p2p(address), None);
    let only = Address::parse(&format!("/p2p/{PEER}")).unwrap();
    assert_eq!(split_p2p(only), Some((PeerId { text: PEER.to_string() }, String::new())));
    assert_eq!(split_p2p(Address { parts: vec![] }), None);
    let error = Address::parse("nonsense").unwrap_err();
    assert_ne!(error, "nonsense");
    assert_eq!(error, "nonsense".parse::<libp2p::Multiaddr>().unwrap_err().to_string());
}
