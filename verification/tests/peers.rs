use featherai::peers::{
    connected_message, env_lan_wait, env_value, error_message, forgotten_message, load_saved,
    parse_peer, parse_peer_list, peer_short, peer_source, peer_state, saved_unreached_message,
    write_saved, IdSet, Join, Peer, Peers, Source, DEFAULT_LAN_WAIT_MS,
};

// Valid ed25519 public keys (RFC 8032 test vectors and the base point).
const K1: &str = "3d4017c3e843895a92b70aa74d1b7ebc9c982ccf2ec4968cc0cd55f12af4660c";
const K2: &str = "5866666666666666666666666666666666666666666666666666666666666666";
const K3: &str = "d75a980182b10ab7d54bfed3c964073a0ee172f3daa62325af021a68f707511a";
const K4: &str = "fc51cd8e6218a1a38da47ed00230f0580816ed13ba3303ac5deb911548908025";

fn hex_bytes(s: &str) -> Vec<u8> {
    (0..s.len()).step_by(2).map(|i| u8::from_str_radix(&s[i..i + 2], 16).unwrap()).collect()
}

/// RFC 4648 base32 without padding.
fn base32(bytes: &[u8]) -> String {
    const ALPHABET: &[u8] = b"ABCDEFGHIJKLMNOPQRSTUVWXYZ234567";
    let mut out = String::new();
    let mut buffer: u32 = 0;
    let mut bits = 0;
    for &b in bytes {
        buffer = (buffer << 8) | b as u32;
        bits += 8;
        while bits >= 5 {
            bits -= 5;
            out.push(ALPHABET[((buffer >> bits) & 31) as usize] as char);
        }
    }
    if bits > 0 {
        out.push(ALPHABET[((buffer << (5 - bits)) & 31) as usize] as char);
    }
    out
}

fn ids(set: &IdSet) -> Vec<String> {
    set.to_vec()
}

#[test]
fn parse_peer_accepts_hex_and_base32_and_trims() {
    assert_eq!(parse_peer(&format!("  {K2}\n")).as_deref(), Some(K2));
    let b32 = base32(&hex_bytes(K3)).to_lowercase();
    assert_eq!(b32.len(), 52);
    assert_eq!(parse_peer(&b32).as_deref(), Some(K3), "base32 reads as the hex id");
    assert_eq!(parse_peer("xyz"), None);
    assert_eq!(parse_peer(&K3.to_uppercase()), None, "hex ids are lowercase");
    assert_eq!(parse_peer(""), None);
}

#[test]
fn parse_peer_list_splits_and_reports_invalid() {
    let raw = format!("{K3}, {K1};bad\n\n{K3}\t nope ");
    let (set, invalid) = parse_peer_list(&raw);
    assert_eq!(ids(&set), vec![K1.to_string(), K3.to_string()], "ascending, once each");
    assert_eq!(invalid, vec!["bad".to_string(), "nope".to_string()]);
    let (empty, none) = parse_peer_list("  ,; ");
    assert_eq!(empty.len(), 0);
    assert!(none.is_empty());
    let (empty, none) = parse_peer_list("");
    assert_eq!(empty.len(), 0);
    assert!(none.is_empty());
    let (empty, bad) = parse_peer_list("foo; bar");
    assert_eq!(empty.len(), 0);
    assert_eq!(bad, vec!["foo".to_string(), "bar".to_string()]);
}

#[test]
fn saved_file_round_trip() {
    let (set, _) = parse_peer_list(&format!("{K4},{K2},{K1}"));
    let text = write_saved(&set);
    assert!(text.starts_with("# Pares de sincronización feathrai"));
    assert!(text.ends_with(&format!("{K4}\n")));
    let (back, invalid) = load_saved(&text);
    assert_eq!(ids(&back), ids(&set));
    assert!(invalid.is_empty());
}

#[test]
fn load_saved_skips_comments_and_blank_lines() {
    let text = format!("# comment\n\n   {K2}  \r\n#{K1}\nnot-an-id\n{K2}\n");
    let (set, invalid) = load_saved(&text);
    assert_eq!(ids(&set), vec![K2.to_string()]);
    assert_eq!(invalid, vec!["not-an-id".to_string()]);
}

#[test]
fn lan_wait_comes_from_the_environment() {
    assert_eq!(env_lan_wait(Some(" 0 ".to_string())), Some(0));
    assert_eq!(env_lan_wait(Some("+750".to_string())), Some(750));
    assert_eq!(env_lan_wait(Some("soon".to_string())), None);
    assert_eq!(Join::app(None).lan_wait_ms, DEFAULT_LAN_WAIT_MS);
    assert_eq!(Join::app(Some("1200".to_string())).lan_wait_ms, 1200);
    assert!(!Join::app(Some("0".to_string())).waits_for_lan(), "0 no espera");
    assert!(Join::app(None).waits_for_lan());
    let off = Join::off();
    assert!(!off.configured && !off.lan && !off.waits_for_lan());
    assert_eq!(env_value(Some("  ".to_string())), None);
    assert_eq!(env_value(Some(" x ".to_string())).as_deref(), Some(" x "));
}

fn started_peers() -> Peers {
    let join = Join::app(None);
    let (peers, bad_env, bad_saved) = Peers::start(
        &join,
        Some(format!("{K1},oops")),
        Some(format!("# header\n{K2}\n")),
    );
    assert_eq!(bad_env, vec!["oops".to_string()]);
    assert!(bad_saved.is_empty());
    peers
}

#[test]
fn start_reads_environment_and_saved_peers() {
    let peers = started_peers();
    assert_eq!(peers.start_dials(), vec![K1.to_string(), K2.to_string()]);
    let (none, _, _) = Peers::start(&Join::off(), Some(K1.to_string()), Some(K2.to_string()));
    assert!(none.start_dials().is_empty(), "sin red no se lee nada");
}

#[test]
fn dials_and_discoveries_shape_the_settings_list() {
    let mut peers = started_peers();
    peers.record_dial(K1.to_string(), true);
    peers.record_dial(K2.to_string(), false);
    assert!(peers.note_discovered(K3.to_string(), K4));
    assert!(!peers.note_discovered(K3.to_string(), K4), "already known");
    assert!(!peers.note_discovered(K4.to_string(), K4), "this node itself");
    assert_eq!(peers.pending_dials(), vec![K2.to_string(), K3.to_string()]);
    peers.finish_start(true);
    peers.record_dial(K3.to_string(), true);

    let list: Vec<Peer> = peers.peers();
    let got: Vec<(String, Source, bool, bool)> =
        list.iter().map(|p| (p.id.clone(), p.source, p.connected, p.late)).collect();
    assert_eq!(
        got,
        vec![
            (K1.to_string(), Source::Env, true, false),
            (K2.to_string(), Source::Saved, false, false),
            (K3.to_string(), Source::Lan, true, true),
        ]
    );
    assert_eq!(
        peers.summary(),
        "pares: 2 configurados (2 con conexión), 3 por red interna; mDNS: sí"
    );
    assert!(peers.connect(K3).is_ok());
    assert_eq!(
        peers.connect(K2).err().unwrap(),
        format!("no se pudo conectar con {K2}: ¿está la app abierta y en la misma red?")
    );
}

#[test]
fn save_and_forget_rewrite_the_file() {
    let mut peers = started_peers();
    let text = peers.save(K4.to_string());
    let (back, _) = load_saved(&text);
    assert_eq!(ids(&back), vec![K2.to_string(), K4.to_string()]);
    let text = peers.forget(K4);
    let (back, _) = load_saved(&text);
    assert_eq!(ids(&back), vec![K2.to_string()], "forget undoes the save");
    let text = peers.forget(K1);
    let (back, _) = load_saved(&text);
    assert_eq!(ids(&back), vec![K2.to_string()], "environment peers are not in the file");
}

#[test]
fn settings_labels() {
    assert_eq!(peer_short(K1), "3d4017c3…f4660c");
    assert_eq!(peer_short("short-id"), "short-id");
    assert_eq!(peer_short("123456789012345678"), "123456789012345678");
    // Cuts go by bytes: "é" takes two.
    assert_eq!(peer_short("ééééééééé"), "ééééééééé", "18 bytes stay whole");
    assert_eq!(peer_short("aaaaaaaaééééébbbbbb"), "aaaaaaaa…bbbbbb");
    assert_eq!(peer_short("ééééabcdefghéééé"), "éééé…ééé");
    assert_eq!(peer_source(Source::Env), "FEATHRAI_PEERS");
    assert_eq!(peer_source(Source::Saved), "guardado");
    assert_eq!(peer_source(Source::Lan), "red interna");
    let peer = |connected, late| Peer { id: K1.to_string(), source: Source::Lan, connected, late };
    assert_eq!(peer_state(&peer(true, false)), "conectado");
    assert_eq!(
        peer_state(&peer(true, true)),
        "conectado · se une a este espacio en el próximo arranque"
    );
    assert_eq!(peer_state(&peer(false, true)), "sin conexión");
    assert_eq!(connected_message(K1), "Conectado con 3d4017c3…f4660c");
    assert_eq!(
        saved_unreached_message(K1),
        "3d4017c3…f4660c guardado, sin respuesta todavía (reintenta al arrancar)"
    );
    assert_eq!(forgotten_message(K1), "3d4017c3…f4660c olvidado");
    assert_eq!(error_message("Sin conexión: ", "timeout"), "Sin conexión: timeout");
}

#[test]
fn saving_twice_is_saving_once() {
    let mut peers = started_peers();
    let first = peers.save(K4.to_string());
    let second = peers.save(K4.to_string());
    assert_eq!(first, second, "peers.txt is written with the same text");
    let (back, _) = load_saved(&second);
    assert_eq!(ids(&back), vec![K2.to_string(), K4.to_string()]);
}
