use luckyprotocol_indexer::protocol::{
    is_canonical_uint, is_hit, parse_payload, settlement_tail, tier_reward, valid_pick, valid_ticker,
    ProtocolPayload, DEPLOY_PROTOCOL_FEE_SATS, LCKPROTOCOL_START_HEIGHT, LCKPROTOCOL_V1_HEIGHT,
    MAX_OUT_IDX, MAX_SEND_AMT, MINE_PROTOCOL_FEE_SATS, PROJECT_FEE_ADDRESS, PROTOCOL_PREFIX,
    REQUIRED_TOKEN_SUPPLY, SEND_PROTOCOL_FEE_SATS,
};

fn parse(s: &str) -> Option<ProtocolPayload> {
    parse_payload(s.as_bytes())
}

fn bet(tier: &str, pick: &str, win: u32, change: Option<u32>) -> Option<ProtocolPayload> {
    Some(ProtocolPayload::Bet {
        tier: tier.to_string(),
        pick: pick.to_string(),
        ticker: "LUCKY".to_string(),
        win_out_idx: win,
        change_out_idx: change,
    })
}

fn send(amount: u64, to: u32, change: Option<u32>) -> Option<ProtocolPayload> {
    Some(ProtocolPayload::Xfer {
        ticker: "ABC".to_string(),
        amount,
        to_out_idx: to,
        change_out_idx: change,
    })
}

#[test]
fn constants_have_their_values() {
    assert_eq!(PROTOCOL_PREFIX, "LUCKYPROTOCOL");
    assert_eq!(REQUIRED_TOKEN_SUPPLY, 21_000_000);
    assert_eq!(MAX_SEND_AMT, 21_000_000);
    assert_eq!(LCKPROTOCOL_V1_HEIGHT, 950_950);
    assert_eq!(LCKPROTOCOL_START_HEIGHT, 950_950);
    assert_eq!(MAX_OUT_IDX, 255);
    assert_eq!(DEPLOY_PROTOCOL_FEE_SATS, 5_460);
    assert_eq!(MINE_PROTOCOL_FEE_SATS, 546);
    assert_eq!(SEND_PROTOCOL_FEE_SATS, 546);
    assert_eq!(
        PROJECT_FEE_ADDRESS,
        "bc1pyefhtnuz2gw04fsynlsseeh847cqy20dw7yt6fnavm9fgnewcr7q88gqf3"
    );
}

#[test]
fn deploy_is_decoded() {
    assert_eq!(
        parse("LUCKYPROTOCOL|DEPLOY|LUCKY"),
        Some(ProtocolPayload::Deploy { ticker: "LUCKY".to_string() })
    );
    assert_eq!(parse("LUCKYPROTOCOL|DEPLOY|LUCKY|21000000"), None);
    assert_eq!(parse("LUCKYPROTOCOL|DEPLOY"), None);
    assert_eq!(parse("LUCKYPROTOCOL|DEPLOY|abc"), None);
    assert_eq!(parse("LUCKYPROTOCOL|DEPLOY|Mixed1"), None);
    assert_eq!(parse("LUCKYPROTOCOL|DEPLOY|ABCDEFGHI"), None);
    assert_eq!(parse("LUCKYPROTOCOL|DEPLOY|"), None);
}

#[test]
fn wagers_are_decoded_with_five_or_six_fields() {
    assert_eq!(parse("LUCKYPROTOCOL|iron|odd|LUCKY|1"), bet("iron", "odd", 1, None));
    assert_eq!(parse("LUCKYPROTOCOL|iron|EVEN|LUCKY|0"), bet("iron", "EVEN", 0, None));
    assert_eq!(parse("LUCKYPROTOCOL|bronze|A|LUCKY|255"), bet("bronze", "A", 255, None));
    assert_eq!(parse("LUCKYPROTOCOL|silver|0f|LUCKY|1|2"), bet("silver", "0f", 1, Some(2)));
    assert_eq!(parse("LUCKYPROTOCOL|gold|7aF|LUCKY|3|3"), bet("gold", "7aF", 3, Some(3)));
    assert_eq!(parse("LUCKYPROTOCOL|gold|7aF|LUCKY|3|3|"), None);
    assert_eq!(parse("LUCKYPROTOCOL|gold|7aF|LUCKY"), None);
    assert_eq!(parse("LUCKYPROTOCOL|gold|7aF|LUCKY|256"), None);
    assert_eq!(parse("LUCKYPROTOCOL|gold|7aF|LUCKY|1|256"), None);
    assert_eq!(parse("LUCKYPROTOCOL|gold|7aF|LUCKY|01"), None);
    assert_eq!(parse("LUCKYPROTOCOL|gold|7a|LUCKY|1"), None);
    assert_eq!(parse("LUCKYPROTOCOL|iron|seven|LUCKY|1"), None);
    assert_eq!(parse("LUCKYPROTOCOL|IRON|odd|LUCKY|1"), None);
}

#[test]
fn transfers_are_decoded() {
    assert_eq!(parse("LUCKYPROTOCOL|SEND|ABC|100|1"), send(100, 1, None));
    assert_eq!(parse("LUCKYPROTOCOL|SEND|ABC|100|1|2"), send(100, 1, Some(2)));
    assert_eq!(parse("LUCKYPROTOCOL|SEND|ABC|21000000|1|2"), send(21_000_000, 1, Some(2)));
    assert_eq!(parse("LUCKYPROTOCOL|SEND|ABC|1|0"), send(1, 0, None));
    assert_eq!(parse("LUCKYPROTOCOL|SEND|ABC|100|1|2|"), None);
    assert_eq!(parse("LUCKYPROTOCOL|SEND|ABC||1"), None);
    assert_eq!(parse("LUCKYPROTOCOL|SEND|ABC|0|1"), None);
    assert_eq!(parse("LUCKYPROTOCOL|SEND|ABC|21000001|1"), None);
    assert_eq!(parse("LUCKYPROTOCOL|SEND|ABC|999999999999999999999999999999999|1"), None);
    assert_eq!(parse("LUCKYPROTOCOL|SEND|ABC|00000000000000000100|1"), None);
    assert_eq!(parse("LUCKYPROTOCOL|SEND|ABC|+5|1"), None);
    assert_eq!(parse("LUCKYPROTOCOL|SEND|ABC|5|1|1"), None);
    assert_eq!(parse("LUCKYPROTOCOL|SEND|ABC|5|1 "), None);
    assert_eq!(parse("LUCKYPROTOCOL|Send|ABC|5|1"), None);
}

#[test]
fn other_texts_are_no_payloads() {
    assert_eq!(parse(""), None);
    assert_eq!(parse("LUCKYPROTOCOL"), None);
    assert_eq!(parse("luckyprotocol|DEPLOY|ABC"), None);
    assert_eq!(parse("BTCASINO|DEPLOY|ABC"), None);
    assert_eq!(parse("LUCKYPROTOCOL|MINE|ABC"), None);
    assert_eq!(parse(" LUCKYPROTOCOL|DEPLOY|ABC"), None);
    let mut bytes = b"LUCKYPROTOCOL|DEPLOY|ABC".to_vec();
    bytes.push(0xff);
    assert_eq!(parse_payload(&bytes), None);
}

#[test]
fn tickers_and_numbers_are_checked() {
    assert!(valid_ticker("A"));
    assert!(valid_ticker("A1B2C3D4"));
    assert!(!valid_ticker(""));
    assert!(!valid_ticker("A1B2C3D4E"));
    assert!(!valid_ticker("aBC"));
    assert!(!valid_ticker("É"));
    assert!(is_canonical_uint("0"));
    assert!(is_canonical_uint("10"));
    assert!(!is_canonical_uint(""));
    assert!(!is_canonical_uint("00"));
    assert!(!is_canonical_uint("-1"));
    assert!(!is_canonical_uint("1e3"));
}

#[test]
fn picks_are_checked_in_any_case() {
    assert!(valid_pick("iron", "Odd"));
    assert!(valid_pick("iron", "even"));
    assert!(!valid_pick("iron", "1"));
    assert!(valid_pick("bronze", "F"));
    assert!(!valid_pick("bronze", "g"));
    assert!(valid_pick("silver", "00"));
    assert!(!valid_pick("silver", "0"));
    assert!(valid_pick("gold", "AbC"));
    assert!(!valid_pick("gold", "ÀÀÀ"));
    assert!(!valid_pick("lead", "a"));
}

#[test]
fn rewards_by_tier() {
    assert_eq!(tier_reward("iron"), Some(100));
    assert_eq!(tier_reward("bronze"), Some(1_000));
    assert_eq!(tier_reward("silver"), Some(10_000));
    assert_eq!(tier_reward("gold"), Some(200_000));
    assert_eq!(tier_reward("Gold"), None);
}

#[test]
fn tails_are_the_last_characters() {
    assert_eq!(settlement_tail("00ab3f", 1), "f");
    assert_eq!(settlement_tail("00ab3f", 3), "b3f");
    assert_eq!(settlement_tail("00ab3f", 6), "00ab3f");
    assert_eq!(settlement_tail("00ab3f", 7), "");
    assert_eq!(settlement_tail("", 0), "");
    assert_eq!(settlement_tail("00AB", 2), "ab");
    assert_eq!(settlement_tail("00AB", 4), "00ab");
}

#[test]
fn wagers_are_decided_by_the_tail() {
    // f = 15, die 4; e = 14, die 3.
    assert_eq!(is_hit("iron", "even", "00ab3f"), Some(true));
    assert_eq!(is_hit("iron", "odd", "00ab3f"), Some(false));
    assert_eq!(is_hit("iron", "odd", "00AB3E"), Some(true));
    assert_eq!(is_hit("iron", "Even", "00AB3E"), Some(false));
    assert_eq!(is_hit("bronze", "F", "00ab3f"), Some(true));
    assert_eq!(is_hit("bronze", "e", "00ab3f"), Some(false));
    assert_eq!(is_hit("silver", "3F", "00ab3f"), Some(true));
    assert_eq!(is_hit("gold", "b3f", "00AB3F"), Some(true));
    assert_eq!(is_hit("gold", "b3e", "00ab3f"), Some(false));
    assert_eq!(is_hit("gold", "b3f", "3f"), Some(false));
    assert_eq!(is_hit("iron", "odd", ""), None);
    assert_eq!(is_hit("iron", "odd", "xyz"), None);
    assert_eq!(is_hit("iron", "neither", "00ab3f"), None);
    assert_eq!(is_hit("lead", "odd", "00ab3f"), None);
}

#[test]
fn exactly_one_iron_pick_wins() {
    let digits = "0123456789abcdef";
    for c in digits.chars() {
        let hash = format!("00{}", c);
        let odd = is_hit("iron", "odd", &hash);
        let even = is_hit("iron", "even", &hash);
        assert_eq!(odd, even.map(|b| !b));
    }
}

#[test]
fn iron_reads_the_last_digit_of_any_text() {
    assert_eq!(is_hit("iron", "odd", "\u{c9}\u{3a3}E"), Some(true));
    assert_eq!(is_hit("iron", "EVEN", "\u{c9}\u{3a3}e"), Some(false));
    assert_eq!(is_hit("iron", "even", "\u{130}7"), Some(true));
    assert_eq!(is_hit("iron", "even", "00\u{212A}"), None);
}

#[test]
fn lower_case_reaches_beyond_ascii() {
    // The Kelvin sign lower-cases to a plain k, which is no hexadecimal digit.
    assert!(!valid_pick("bronze", "\u{212A}"));
    assert_eq!(is_hit("bronze", "\u{212A}", "00k"), Some(true));
}

#[test]
fn a_payload_has_one_spelling() {
    let spelled = "LUCKYPROTOCOL|SEND|ABC|100|1|2";
    assert!(parse(spelled).is_some());
    for other in [
        "LUCKYPROTOCOL|SEND|ABC|0100|1|2",
        "LUCKYPROTOCOL|SEND|ABC|+100|1|2",
        "LUCKYPROTOCOL|SEND|ABC|100|01|2",
        "LUCKYPROTOCOL|SEND|ABC|100|1|02",
        "LUCKYPROTOCOL|SEND|ABC|100|1|2 ",
    ] {
        assert_eq!(parse(other), None);
    }
    // The case of a pick is kept, so two cases are two payloads.
    assert_ne!(parse("LUCKYPROTOCOL|bronze|F|ABC|1"), parse("LUCKYPROTOCOL|bronze|f|ABC|1"));
}
