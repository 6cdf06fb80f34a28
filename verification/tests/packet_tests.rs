use cw20_ics20::ack::{ack_success, encode_ack, Ics20Ack};
use cw20_ics20::amount::Amount;
use cw20_ics20::channel::{IbcChannel, IbcEndpoint, IbcOrder};
use cw20_ics20::error::ContractError;
use cw20_ics20::ibc::{
    ibc_channel_connect, ibc_packet_ack, ibc_packet_receive, ibc_packet_timeout, send_amount,
    CosmosMsg, IbcAcknowledgement, IbcPacket, Ics20Packet,
};
use cw20_ics20::state::Store;

fn mock_channel(id: &str) -> IbcChannel {
    IbcChannel {
        endpoint: IbcEndpoint {
            port_id: "transfer".to_string(),
            channel_id: id.to_string(),
        },
        counterparty_endpoint: IbcEndpoint {
            port_id: "their-port".to_string(),
            channel_id: format!("{}-counter", id),
        },
        order: IbcOrder::Unordered,
        version: "ics20-1".to_string(),
        counterparty_version: Some("ics20-1".to_string()),
        connection_id: "connection-2".to_string(),
    }
}

fn mock_packet(channel: &str, denom: &str, amount: u64) -> IbcPacket {
    IbcPacket {
        data: Ics20Packet {
            denom: denom.to_string(),
            amount,
            sender: "S".to_string(),
            receiver: "R".to_string(),
        },
        src: IbcEndpoint {
            port_id: "transfer".to_string(),
            channel_id: channel.to_string(),
        },
        dest: IbcEndpoint {
            port_id: "their-port".to_string(),
            channel_id: format!("{}-counter", channel),
        },
    }
}

fn bank_send(to: &str, denom: &str, amount: u128) -> CosmosMsg {
    CosmosMsg::BankSend {
        to_address: to.to_string(),
        denom: denom.to_string(),
        amount,
    }
}

#[test]
fn end_to_end_scenario() {
    let mut store = Store::new();
    ibc_channel_connect(&mut store, mock_channel("channel-3")).unwrap();
    store.credit("channel-3", "atom", 150).unwrap();

    let resp = ibc_packet_receive(&mut store, mock_packet("channel-3", "atom", 100));
    assert_eq!(resp.acknowledgement, ack_success());
    assert_eq!(resp.messages, vec![bank_send("R", "atom", 100)]);

    let state = store.channel_state("channel-3", "atom").unwrap();
    assert_eq!(state.outstanding, 50);
    assert_eq!(state.total_sent, 150);
}

#[test]
fn receive_decrements_exactly_once() {
    let mut store = Store::new();
    store.credit("channel-3", "atom", 100).unwrap();

    let resp = ibc_packet_receive(&mut store, mock_packet("channel-3", "atom", 100));
    assert_eq!(resp.messages.len(), 1);
    assert_eq!(store.channel_state("channel-3", "atom").unwrap().outstanding, 0);

    // a zero-amount packet is accepted and moves zero value
    let resp = ibc_packet_receive(&mut store, mock_packet("channel-3", "atom", 0));
    assert_eq!(resp.acknowledgement, ack_success());
    assert_eq!(resp.messages, vec![bank_send("R", "atom", 0)]);
}

#[test]
fn receive_insufficient_leaves_ledger_unchanged() {
    let mut store = Store::new();
    store.credit("channel-3", "atom", 150).unwrap();

    let resp = ibc_packet_receive(&mut store, mock_packet("channel-3", "atom", 200));
    assert_eq!(
        String::from_utf8(resp.acknowledgement).unwrap(),
        r#"{"error":"insufficient funds"}"#
    );
    assert!(resp.messages.is_empty());
    let state = store.channel_state("channel-3", "atom").unwrap();
    assert_eq!(state.outstanding, 150);
    assert_eq!(state.total_sent, 150);

    // the no-entry case behaves the same
    let resp = ibc_packet_receive(&mut store, mock_packet("channel-3", "btc", 1));
    assert!(resp.messages.is_empty());
    assert!(store.channel_state("channel-3", "btc").is_none());
}

#[test]
fn ack_success_credits_ledger() {
    let mut store = Store::new();
    store.credit("channel-3", "atom", 40).unwrap();

    let ack = IbcAcknowledgement {
        acknowledgement: encode_ack(&Ics20Ack::Result(b"1".to_vec())),
        original_packet: mock_packet("channel-3", "atom", 25),
    };
    let resp = ibc_packet_ack(&mut store, ack).unwrap();
    assert!(resp.messages.is_empty());

    let state = store.channel_state("channel-3", "atom").unwrap();
    assert_eq!(state.outstanding, 65);
    assert_eq!(state.total_sent, 65);
}

#[test]
fn ack_success_creates_missing_entry() {
    let mut store = Store::new();
    let ack = IbcAcknowledgement {
        acknowledgement: encode_ack(&Ics20Ack::Result(b"1".to_vec())),
        original_packet: mock_packet("channel-9", "osmo", 7),
    };
    ibc_packet_ack(&mut store, ack).unwrap();
    let state = store.channel_state("channel-9", "osmo").unwrap();
    assert_eq!(state.outstanding, 7);
    assert_eq!(state.total_sent, 7);
}

#[test]
fn ack_error_refunds_sender_and_keeps_ledger() {
    let mut store = Store::new();
    store.credit("channel-3", "atom", 40).unwrap();

    let ack = IbcAcknowledgement {
        acknowledgement: encode_ack(&Ics20Ack::Error(b"bad coin".to_vec())),
        original_packet: mock_packet("channel-3", "atom", 25),
    };
    let resp = ibc_packet_ack(&mut store, ack).unwrap();
    assert_eq!(resp.messages, vec![bank_send("S", "atom", 25)]);
    assert_eq!(resp.attributes.len(), 1);
    assert_eq!(resp.attributes[0].key, "ibc_error");
    assert_eq!(resp.attributes[0].value, b"bad coin".to_vec());

    let state = store.channel_state("channel-3", "atom").unwrap();
    assert_eq!(state.outstanding, 40);
    assert_eq!(state.total_sent, 40);
}

#[test]
fn timeout_refunds_sender() {
    let resp = ibc_packet_timeout(mock_packet("channel-3", "atom", 25));
    assert_eq!(resp.messages, vec![bank_send("S", "atom", 25)]);
    assert_eq!(resp.attributes.len(), 1);
    assert_eq!(resp.attributes[0].key, "ibc_error");
    assert_eq!(resp.attributes[0].value, b"timeout".to_vec());
}

#[test]
fn malformed_ack_is_rejected() {
    let mut store = Store::new();
    let ack = IbcAcknowledgement {
        acknowledgement: b"junk".to_vec(),
        original_packet: mock_packet("channel-3", "atom", 25),
    };
    assert_eq!(
        ibc_packet_ack(&mut store, ack),
        Err(ContractError::MalformedAck {})
    );
}

#[test]
fn insufficient_funds_error_from_ledger() {
    let mut store = Store::new();
    assert_eq!(
        store.reduce_outstanding("channel-3", "atom", 5),
        Err(ContractError::InsufficientFunds {})
    );
}

#[test]
fn overflow_error_from_ledger() {
    let mut store = Store::new();
    store.credit("channel-3", "atom", u128::MAX).unwrap();
    assert_eq!(
        store.credit("channel-3", "atom", 1),
        Err(ContractError::Overflow {})
    );
    // the failed credit left the entry as it was
    let state = store.channel_state("channel-3", "atom").unwrap();
    assert_eq!(state.outstanding, u128::MAX);
    assert_eq!(state.total_sent, u128::MAX);
}

#[test]
fn cw20_denom_routes_to_token_contract() {
    let amount = Amount::from_parts("cw20:token0123".to_string(), 9);
    assert_eq!(
        amount,
        Amount::Cw20 {
            address: "token0123".to_string(),
            amount: 9
        }
    );
    let msg = send_amount(amount, "R".to_string());
    assert_eq!(
        msg,
        CosmosMsg::Cw20Transfer {
            contract_addr: "token0123".to_string(),
            recipient: "R".to_string(),
            amount: 9
        }
    );

    let mut store = Store::new();
    store.credit("channel-3", "cw20:token0123", 10).unwrap();
    let resp = ibc_packet_receive(&mut store, mock_packet("channel-3", "cw20:token0123", 4));
    assert_eq!(
        resp.messages,
        vec![CosmosMsg::Cw20Transfer {
            contract_addr: "token0123".to_string(),
            recipient: "R".to_string(),
            amount: 4
        }]
    );
}

#[test]
fn native_denom_routes_to_bank() {
    // a tag shorter than the prefix, or without the colon, is native
    assert_eq!(
        Amount::from_parts("cw20".to_string(), 3),
        Amount::Native {
            denom: "cw20".to_string(),
            amount: 3
        }
    );
    assert_eq!(
        Amount::from_parts("atom".to_string(), 3),
        Amount::Native {
            denom: "atom".to_string(),
            amount: 3
        }
    );
    // an empty contract address after the prefix still selects the variant
    assert_eq!(
        Amount::from_parts("cw20:".to_string(), 3),
        Amount::Cw20 {
            address: "".to_string(),
            amount: 3
        }
    );
}
