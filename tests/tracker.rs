use rusty_torrent::error::TorrentParserError;
use rusty_torrent::model::{TorrentMetadata, Info, TrackerResponse, TrackerResponsePeer, TrackerSuccessResponse};
use rusty_torrent::parse_tracker_response;
use rusty_torrent::peer::Peer;
use rusty_torrent::session::make_peer_id;
use rusty_torrent::torrent::{apply_announce, merge_peers, trackers_for};
use rusty_torrent::tracker::{Tracker, TrackerConnectionState};

fn peer(id: &str, ip: &str, port: u16) -> Peer {
    Peer {
        id: id.to_string(),
        ip: ip.to_string(),
        port,
        am_choking: true,
        am_interested: false,
        peer_choking: true,
        peer_interested: false,
        bitfield: vec![],
    }
}

fn reported(id: Option<&str>, ip: &str, port: i64) -> TrackerResponsePeer {
    TrackerResponsePeer { peer_id: id.map(|s| s.to_string()), ip: ip.to_string(), port }
}

fn success(interval: i64, tracker_id: Option<&str>) -> TrackerResponse {
    TrackerResponse::Success(TrackerSuccessResponse {
        interval,
        min_interval: Some(10),
        tracker_id: tracker_id.map(|s| s.to_string()),
        complete: 4,
        incomplete: 2,
        peers: vec![],
    })
}

#[test]
fn compact_peers_decode() {
    let mut body = b"d8:completei1e10:incompletei2e8:intervali900e5:peers6:".to_vec();
    body.extend_from_slice(&[192, 168, 0, 1, 0x1A, 0xE1]);
    body.push(b'e');
    match parse_tracker_response(body).unwrap() {
        TrackerResponse::Success(s) => {
            assert_eq!(s.interval, 900);
            assert_eq!(s.complete, 1);
            assert_eq!(s.incomplete, 2);
            assert_eq!(s.peers.len(), 1);
            assert_eq!(s.peers[0].ip, "192.168.0.1");
            assert_eq!(s.peers[0].port, 6881);
            assert!(s.peers[0].peer_id.is_none());
        }
        _ => panic!("expected a success"),
    }
}

#[test]
fn compact_peers_bad_length() {
    let mut body = b"d8:completei1e10:incompletei2e8:intervali900e5:peers7:".to_vec();
    body.extend_from_slice(&[192, 168, 0, 1, 0x1A, 0xE1, 9]);
    body.push(b'e');
    assert!(matches!(parse_tracker_response(body), Err(TorrentParserError::InvalidStructure(_))));
}

#[test]
fn dictionary_peers_decode() {
    let body = b"d8:completei1e10:incompletei0e8:intervali60e12:min intervali30e5:peersld2:ip8:10.0.0.17:peer id2:ab4:porti80eed2:ip3:::14:porti81eee10:tracker id3:tidee".to_vec();
    match parse_tracker_response(body).unwrap() {
        TrackerResponse::Success(s) => {
            assert_eq!(s.min_interval, Some(30));
            assert_eq!(s.tracker_id, Some("tid".to_string()));
            assert_eq!(s.peers.len(), 2);
            assert_eq!(s.peers[0].peer_id, Some("ab".to_string()));
            assert_eq!(s.peers[0].ip, "10.0.0.1");
            assert_eq!(s.peers[0].port, 80);
            assert_eq!(s.peers[1].ip, "::1");
            assert!(s.peers[1].peer_id.is_none());
        }
        _ => panic!("expected a success"),
    }
}

#[test]
fn failure_reason_takes_precedence() {
    let body = b"d14:failure reason4:gone8:intervali900ee".to_vec();
    assert!(matches!(parse_tracker_response(body), Ok(TrackerResponse::Failure(m)) if m == "gone"));
}

#[test]
fn warning_message_before_success_fields() {
    let body = b"d15:warning message4:slowe".to_vec();
    assert!(matches!(parse_tracker_response(body), Ok(TrackerResponse::Warning(m)) if m == "slow"));
}

#[test]
fn response_required_fields() {
    let body = b"d8:completei1e10:incompletei2e8:intervali900ee".to_vec();
    assert!(matches!(parse_tracker_response(body), Err(TorrentParserError::MissingRequiredField(n)) if n == "peers"));
    let body = b"d8:completei1e10:incompletei2e5:peerslee".to_vec();
    assert!(matches!(parse_tracker_response(body), Err(TorrentParserError::MissingRequiredField(n)) if n == "interval"));
    let body = b"d8:completei1e10:incompletei2e8:intervali9e5:peersi3ee".to_vec();
    match parse_tracker_response(body) {
        Err(TorrentParserError::FieldTypeError { expected, found }) => {
            assert_eq!(expected, "List or String");
            assert_eq!(found, "Integer");
        }
        _ => panic!("expected a type error"),
    }
    assert!(matches!(parse_tracker_response(b"i1e".to_vec()), Err(TorrentParserError::FieldTypeError { .. })));
    assert!(matches!(parse_tracker_response(vec![]), Err(TorrentParserError::InvalidStructure(_))));
}

#[test]
fn peer_equality() {
    let a = peer("a", "1.2.3.4", 1);
    assert!(a == a);
    let b = peer("a", "9.9.9.9", 2);
    let c = peer("b", "1.2.3.4", 1);
    assert!(a == b && b == a);
    assert!(a == c && c == a);
    assert!(b != c);
}

#[test]
fn peer_from_report() {
    let p = Peer::from(reported(None, "1.1.1.1", 6881));
    assert_eq!(p.id, "");
    assert_eq!(p.port, 6881);
    assert!(p.am_choking && p.peer_choking && !p.am_interested && !p.peer_interested);
    assert!(p.bitfield.is_empty());
}

#[test]
fn tracker_identity() {
    let a = Tracker::new("http://t/a".to_string());
    let mut b = Tracker::from("http://t/a".to_string());
    b.update(&success(5, Some("x")));
    assert!(a == b);
    assert!(a != Tracker::new("http://t/b".to_string()));
}

#[test]
fn tracker_update_rules() {
    let mut t = Tracker::new("http://t/a".to_string());
    assert!(matches!(t.state, TrackerConnectionState::NotContacted));
    assert!(t.is_first_contact());
    t.update(&success(1800, Some("tid")));
    assert_eq!(t.interval, 1800);
    assert_eq!(t.min_interval, Some(10));
    assert_eq!(t.tracker_id, Some("tid".to_string()));
    match &t.state {
        TrackerConnectionState::Connected(s) => {
            assert_eq!((s.seeders, s.leechers, s.complete, s.incomplete), (4, 2, 4, 2));
        }
        _ => panic!("expected connected"),
    }
    t.update(&success(60, None));
    assert_eq!(t.tracker_id, Some("tid".to_string()));
    t.update(&TrackerResponse::Failure("down".to_string()));
    assert!(matches!(&t.state, TrackerConnectionState::Timeout(m) if m == "down"));
    assert_eq!(t.interval, 60);
    t.update(&TrackerResponse::Warning("slow".to_string()));
    assert!(matches!(&t.state, TrackerConnectionState::Timeout(m) if m == "slow"));
    assert!(!t.is_first_contact());
    t.record_transport_error("timed out".to_string());
    assert!(matches!(&t.state, TrackerConnectionState::Timeout(m) if m == "timed out"));
}

#[test]
fn tracker_never_returns_to_not_contacted() {
    let mut t = Tracker::new("http://t/a".to_string());
    let responses = vec![
        TrackerResponse::Warning("w".to_string()),
        success(5, None),
        TrackerResponse::Failure("f".to_string()),
        success(6, None),
    ];
    for r in &responses {
        t.update(r);
        assert!(!matches!(t.state, TrackerConnectionState::NotContacted));
    }
}

fn metadata(announce: &str, list: Option<Vec<Vec<&str>>>) -> TorrentMetadata {
    TorrentMetadata {
        announce: announce.to_string(),
        announce_list: list.map(|l| {
            l.into_iter().map(|t| t.into_iter().map(|s| s.to_string()).collect()).collect()
        }),
        comment: None,
        created_by: None,
        creation_date: None,
        encoding: None,
        info: Info {
            piece_length: 1,
            pieces: vec![],
            private: None,
            name: "n".to_string(),
            files: None,
            length: Some(1),
            md5sum: None,
        },
        info_hash: vec![0; 20],
    }
}

#[test]
fn trackers_are_deduplicated_in_order() {
    let m = metadata("http://a", Some(vec![vec!["http://b", "http://a"], vec!["http://c", "http://b"]]));
    let ts = trackers_for(&m);
    let urls: Vec<&str> = ts.iter().map(|t| t.announce.as_str()).collect();
    assert_eq!(urls, vec!["http://a", "http://b", "http://c"]);
    assert!(ts.iter().all(|t| t.is_first_contact()));
    assert_eq!(trackers_for(&metadata("http://a", None)).len(), 1);
}

#[test]
fn merging_peers_skips_equal_ones() {
    let mut peers = vec![peer("a", "1.1.1.1", 1)];
    merge_peers(
        &mut peers,
        vec![
            reported(Some("a"), "2.2.2.2", 2),
            reported(Some("b"), "1.1.1.1", 1),
            reported(Some("c"), "3.3.3.3", 3),
            reported(None, "3.3.3.3", 3),
            reported(None, "4.4.4.4", 4),
        ],
    );
    let ids: Vec<(&str, &str)> = peers.iter().map(|p| (p.id.as_str(), p.ip.as_str())).collect();
    assert_eq!(ids, vec![("a", "1.1.1.1"), ("c", "3.3.3.3"), ("", "4.4.4.4")]);
}

#[test]
fn announce_reply_updates_state() {
    let mut t = Tracker::new("http://t/a".to_string());
    let mut peers: Vec<Peer> = vec![];
    let mut body = b"d8:completei3e10:incompletei1e8:intervali120e5:peers12:".to_vec();
    body.extend_from_slice(&[1, 2, 3, 4, 0, 80, 5, 6, 7, 8, 1, 0]);
    body.push(b'e');
    assert!(apply_announce(&mut t, &mut peers, body).is_ok());
    assert_eq!(t.interval, 120);
    assert_eq!(peers.len(), 1);
    assert_eq!(peers[0].ip, "1.2.3.4");
    assert_eq!(peers[0].port, 80);

    assert!(apply_announce(&mut t, &mut peers, b"garbage".to_vec()).is_err());
    assert_eq!(t.interval, 120);
    assert!(matches!(t.state, TrackerConnectionState::Connected(_)));

    assert!(apply_announce(&mut t, &mut peers, b"d14:failure reason3:badee".to_vec()).is_ok());
    assert!(matches!(&t.state, TrackerConnectionState::Timeout(m) if m == "bad"));
    assert_eq!(peers.len(), 1);
}

#[test]
fn peer_id_layout() {
    let id = make_peer_id(&['R', 'T'], &['0', '1', '0', '0'], 0x1234, 0x6543_abcd);
    assert_eq!(id, "-RT0100-12346543abcd");
    let id = make_peer_id(&['R', 'T'], &['0', '1', '0', '0'], 0xabcdef, 0x1234_5678_9a);
    assert_eq!(id, "-RT0100-abcdef123456");
    let id = make_peer_id(&['R', 'T'], &['0', '1', '0', '0'], 1, 0x10);
    assert_eq!(id, "-RT0100-110000000000");
    assert_eq!(id.len(), 20);
}

#[test]
fn announce_params_follow_state() {
    let mut t = Tracker::new("http://t/a".to_string());
    assert_eq!(t.announce_params(), vec![("event".to_string(), "started".to_string())]);
    t.update(&success(30, Some("tid")));
    assert_eq!(t.announce_params(), vec![("trackerid".to_string(), "tid".to_string())]);
    t.update(&TrackerResponse::Failure("x".to_string()));
    assert_eq!(t.announce_params(), vec![("trackerid".to_string(), "tid".to_string())]);
    assert_eq!(Tracker::new("u".to_string()).poll_delay(), 0);
    assert_eq!(t.poll_delay(), 30);
    t.update(&success(-5, None));
    assert_eq!(t.poll_delay(), 0);
}

#[test]
fn new_trackers_start_clean() {
    let ts = trackers_for(&metadata("http://a", Some(vec![vec!["http://b"]])));
    assert!(ts.iter().all(|t| t.interval == 0 && t.min_interval.is_none() && t.tracker_id.is_none()));
}

#[test]
fn announce_reply_sets_intervals() {
    let mut t = Tracker::new("http://t/a".to_string());
    let mut peers: Vec<Peer> = vec![];
    let body = b"d8:completei3e10:incompletei1e8:intervali120e12:min intervali60e5:peers0:10:tracker id2:abe".to_vec();
    assert!(apply_announce(&mut t, &mut peers, body).is_ok());
    assert_eq!(t.interval, 120);
    assert_eq!(t.min_interval, Some(60));
    assert_eq!(t.tracker_id, Some("ab".to_string()));
}
