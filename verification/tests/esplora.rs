use lwk_wollet::esplora::{
    decode_header_reply, decode_transaction_reply, history_from_txs, parse_block_hash, parse_txid,
};
use lwk_wollet::{EsploraClient, EsploraTx, HexErrorKind, Status, WolletError};

const HASH_TEXT: &str = "1f1e1d1c1b1a191817161514131211100f0e0d0c0b0a09080706050403020100";

fn counting_bytes() -> [u8; 32] {
    let mut h = [0u8; 32];
    for (i, b) in h.iter_mut().enumerate() {
        *b = i as u8;
    }
    h
}

#[test]
fn client_urls() {
    let client = EsploraClient::new("http://127.0.0.1:3000");
    assert_eq!(client.base_url(), "http://127.0.0.1:3000");
    assert_eq!(client.tip_hash_url(), "http://127.0.0.1:3000/blocks/tip/hash");
    assert_eq!(client.broadcast_url(), "http://127.0.0.1:3000/tx");
    assert_eq!(
        client.header_url(&counting_bytes()),
        format!("http://127.0.0.1:3000/block/{HASH_TEXT}/header")
    );
    assert_eq!(
        client.tx_raw_url(&counting_bytes()),
        format!("http://127.0.0.1:3000/tx/{HASH_TEXT}/raw")
    );
    assert_eq!(client.block_height_url(0), "http://127.0.0.1:3000/block-height/0");
    assert_eq!(client.block_height_url(101), "http://127.0.0.1:3000/block-height/101");
    assert_eq!(
        client.script_history_url(b"abc"),
        "http://127.0.0.1:3000/scripthash/ba7816bf8f01cfea414140de5dae2223b00361a396177a9cb410ff61f20015ad/txs"
    );
}

#[test]
fn header_url_from_hash_reply() {
    let client = EsploraClient::new("https://e.example/api");
    let upper = HASH_TEXT.to_uppercase();
    assert_eq!(
        client.header_url_from_reply(&upper).unwrap(),
        format!("https://e.example/api/block/{HASH_TEXT}/header")
    );
    match client.header_url_from_reply("not a hash") {
        Err(WolletError::Hex(HexErrorKind::InvalidLength)) => {}
        other => panic!("unexpected: {:?}", other),
    }
}

#[test]
fn hashes_and_txids_from_replies() {
    assert_eq!(parse_block_hash(HASH_TEXT).unwrap(), counting_bytes());
    assert_eq!(parse_txid(HASH_TEXT).unwrap(), counting_bytes());
    let with_newline = format!("{HASH_TEXT}\n");
    match parse_txid(&with_newline) {
        Err(WolletError::Hex(HexErrorKind::InvalidLength)) => {}
        other => panic!("unexpected: {:?}", other),
    }
    // The same bytes as elements reads them.
    let txid: elements::Txid = HASH_TEXT.parse().unwrap();
    assert_eq!(txid.to_byte_array(), counting_bytes());
}

fn sample_header() -> elements::BlockHeader {
    elements::BlockHeader {
        version: 0x2000_0000,
        prev_blockhash: elements::BlockHash::from_byte_array(counting_bytes()),
        merkle_root: elements::TxMerkleNode::from_byte_array([7u8; 32]),
        time: 1_700_000_000,
        height: 101,
        ext: elements::BlockExtData::Proof {
            challenge: elements::Script::new(),
            solution: elements::Script::new(),
        },
    }
}

#[test]
fn header_replies() {
    let header = sample_header();
    let bytes = elements::encode::serialize(&header);
    let text: String = bytes.iter().map(|b| format!("{:02x}", b)).collect();
    let decoded = decode_header_reply(&text).unwrap();
    assert_eq!(decoded.height, 101);
    assert_eq!(decoded, header);
    match decode_header_reply("abc") {
        Err(WolletError::Hex(HexErrorKind::OddLength)) => {}
        other => panic!("unexpected: {:?}", other.map(|h| h.height)),
    }
    match decode_header_reply("zz") {
        Err(WolletError::Hex(HexErrorKind::InvalidChar)) => {}
        other => panic!("unexpected: {:?}", other.map(|h| h.height)),
    }
    match decode_header_reply("0000") {
        Err(WolletError::Decode) => {}
        other => panic!("unexpected: {:?}", other.map(|h| h.height)),
    }
}

#[test]
fn transaction_replies() {
    let tx = elements::Transaction {
        version: 2,
        lock_time: elements::LockTime::ZERO,
        input: vec![],
        output: vec![],
    };
    let bytes = elements::encode::serialize(&tx);
    assert_eq!(decode_transaction_reply(&bytes).unwrap(), tx);
    let client = EsploraClient::new("http://h");
    let (url, body) = client.broadcast_request(&tx);
    assert_eq!(url, "http://h/tx");
    assert_eq!(body, bytes);
    match decode_transaction_reply(&[1, 2]) {
        Err(WolletError::Decode) => {}
        other => panic!("unexpected: {:?}", other.map(|t| t.version)),
    }
}

#[test]
fn history_from_listed_transactions() {
    let txs = vec![
        EsploraTx { txid: HASH_TEXT.to_string(), fee: 250, status: Status { block_height: 101 } },
        EsploraTx { txid: "00".repeat(32), fee: 0, status: Status { block_height: -1 } },
    ];
    let history = history_from_txs(&txs).unwrap();
    assert_eq!(history.len(), 2);
    assert_eq!(history[0].height, 101);
    assert_eq!(history[0].tx_hash, counting_bytes());
    assert_eq!(history[0].fee, Some(250));
    assert_eq!(history[1].height, -1);
    assert_eq!(history[1].tx_hash, [0u8; 32]);
    assert_eq!(history[1].fee, Some(0));

    let bad = vec![
        EsploraTx { txid: HASH_TEXT.to_string(), fee: 1, status: Status { block_height: 1 } },
        EsploraTx { txid: "xyz".to_string(), fee: 1, status: Status { block_height: 1 } },
    ];
    match history_from_txs(&bad) {
        Err(WolletError::Hex(HexErrorKind::InvalidLength)) => {}
        other => panic!("unexpected: {:?}", other.map(|h| h.len())),
    }
    assert_eq!(history_from_txs(&vec![]).unwrap().len(), 0);
}
