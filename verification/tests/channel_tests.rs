use cw20_ics20::channel::{IbcChannel, IbcEndpoint, IbcOrder};
use cw20_ics20::error::ContractError;
use cw20_ics20::ibc::{ibc_channel_connect, ibc_channel_open};
use cw20_ics20::state::Store;

fn mock_channel(id: &str) -> IbcChannel {
    IbcChannel {
        endpoint: IbcEndpoint {
            port_id: "transfer".to_string(),
            channel_id: id.to_string(),
        },
        counterparty_endpoint: IbcEndpoint {
            port_id: "their-port".to_string(),
            channel_id: format!("{}-counter", id),
        },
        order: IbcOrder::Unordered,
        version: "ics20-1".to_string(),
        counterparty_version: Some("ics20-1".to_string()),
        connection_id: "connection-2".to_string(),
    }
}

fn setup(channels: &[&str]) -> Store {
    let mut store = Store::new();
    for id in channels {
        ibc_channel_open(&mock_channel(id)).unwrap();
        ibc_channel_connect(&mut store, mock_channel(id)).unwrap();
    }
    store
}

#[test]
fn setup_and_query() {
    let store = setup(&["channel-3", "channel-7"]);
    let info = store.channel_info("channel-3").unwrap();
    assert_eq!(info.id, "channel-3");
    assert_eq!(info.counterparty_endpoint.channel_id, "channel-3-counter");
    assert_eq!(info.connection_id, "connection-2");
    assert!(store.channel_info("channel-7").is_some());
    assert!(store.channel_info("channel-9").is_none());
}

#[test]
fn open_rejects_wrong_version() {
    // a wrong version fails whatever the ordering mode is
    for order in [IbcOrder::Unordered, IbcOrder::Ordered] {
        let mut channel = mock_channel("channel-1");
        channel.version = "ics20-2".to_string();
        channel.order = order;
        assert_eq!(
            ibc_channel_open(&channel),
            Err(ContractError::InvalidIbcVersion {
                version: "ics20-2".to_string()
            })
        );
    }
}

#[test]
fn open_rejects_wrong_counterparty_version() {
    let mut channel = mock_channel("channel-1");
    channel.counterparty_version = Some("ics27".to_string());
    assert_eq!(
        ibc_channel_open(&channel),
        Err(ContractError::InvalidIbcVersion {
            version: "ics27".to_string()
        })
    );
}

#[test]
fn open_rejects_wrong_ordering() {
    let mut channel = mock_channel("channel-1");
    channel.order = IbcOrder::Ordered;
    assert_eq!(
        ibc_channel_open(&channel),
        Err(ContractError::OnlyOrderedChannel {})
    );
}

#[test]
fn open_accepts_unknown_counterparty_version() {
    let mut channel = mock_channel("channel-1");
    channel.counterparty_version = None;
    assert_eq!(ibc_channel_open(&channel), Ok(()));
}

#[test]
fn connect_rejects_what_open_rejects() {
    let mut store = Store::new();
    let mut channel = mock_channel("channel-1");
    channel.version = "bad".to_string();
    assert_eq!(
        ibc_channel_connect(&mut store, channel),
        Err(ContractError::InvalidIbcVersion {
            version: "bad".to_string()
        })
    );
    assert!(store.channel_info("channel-1").is_none());
}
