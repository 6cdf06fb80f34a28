use vstd::prelude::*;

use crate::ack::{ack_success, decode_ack, encode_ack, spec_decode_ack, spec_encode_ack, AckV,
    Ics20Ack};
use crate::amount::{spec_amount_from_parts, Amount, AmountV};
use crate::channel::{enforce_order_and_version, spec_channel_acceptable,
    spec_counterparty_version_ok, spec_ics20_version, ChannelInfo, ChannelInfoV, IbcChannel,
    IbcEndpoint, IbcOrder};
use crate::error::ContractError;
use crate::laws::{apply_event, LedgerEvent};
use crate::state::{ChannelState, Store};

verus! {

/// The application payload of a transfer packet.
#[derive(Debug, Clone, PartialEq, Default)]
pub struct Ics20Packet {
    /// The token denomination to be transferred.
    pub denom: String,
    /// The amount, as the 64-bit wire integer.
    pub amount: u64,
    /// The sender address on the origin chain.
    pub sender: String,
    /// The recipient address on the destination chain.
    pub receiver: String,
}

/// Ghost image of a packet payload.
pub ghost struct Ics20PacketV {
    pub denom: Seq<char>,
    pub amount: u64,
    pub sender: Seq<char>,
    pub receiver: Seq<char>,
}

impl View for Ics20Packet {
    type V = Ics20PacketV;

    open spec fn view(&self) -> Ics20PacketV {
        Ics20PacketV {
            denom: self.denom@,
            amount: self.amount,
            sender: self.sender@,
            receiver: self.receiver@,
        }
    }
}

/// A transport packet as this application reads it: the decoded payload
/// and the two channel ends it travelled between.
#[derive(Debug, Clone, PartialEq)]
pub struct IbcPacket {
    pub data: Ics20Packet,
    pub src: IbcEndpoint,
    pub dest: IbcEndpoint,
}

/// An acknowledgement delivered for a packet this chain originated.
#[derive(Debug, Clone, PartialEq)]
pub struct IbcAcknowledgement {
    /// The raw envelope bytes the counterparty produced.
    pub acknowledgement: Vec<u8>,
    /// The packet being acknowledged.
    pub original_packet: IbcPacket,
}

/// A value-transfer instruction handed outward for the surrounding
/// system to execute: pay out a native coin, or call the token contract
/// that holds the balance.
#[derive(Debug, Clone, PartialEq)]
pub enum CosmosMsg {
    BankSend { to_address: String, denom: String, amount: u128 },
    Cw20Transfer { contract_addr: String, recipient: String, amount: u128 },
}

/// Ghost image of a value-transfer instruction.
pub ghost enum CosmosMsgV {
    BankSend { to_address: Seq<char>, denom: Seq<char>, amount: u128 },
    Cw20Transfer { contract_addr: Seq<char>, recipient: Seq<char>, amount: u128 },
}

impl View for CosmosMsg {
    type V = CosmosMsgV;

    open spec fn view(&self) -> CosmosMsgV {
        match self {
            CosmosMsg::BankSend { to_address, denom, amount } => CosmosMsgV::BankSend {
                to_address: to_address@,
                denom: denom@,
                amount: *amount,
            },
            CosmosMsg::Cw20Transfer { contract_addr, recipient, amount } => (
            CosmosMsgV::Cw20Transfer {
                contract_addr: contract_addr@,
                recipient: recipient@,
                amount: *amount,
            }),
        }
    }
}

/// An observability attribute attached to a response. Values are kept
/// as bytes, as they travel next to the wire.
#[derive(Debug, Clone, PartialEq)]
pub struct Attribute {
    pub key: String,
    pub value: Vec<u8>,
}

/// Ghost image of an attribute.
pub ghost struct AttributeV {
    pub key: Seq<char>,
    pub value: Seq<u8>,
}

impl View for Attribute {
    type V = AttributeV;

    open spec fn view(&self) -> AttributeV {
        AttributeV { key: self.key@, value: self.value@ }
    }
}

/// The outcome of a channel or acknowledgement event: instructions to
/// execute and attributes to record.
#[derive(Debug, Clone, PartialEq)]
pub struct IbcBasicResponse {
    pub messages: Vec<CosmosMsg>,
    pub attributes: Vec<Attribute>,
}

/// Ghost image of a basic response.
pub ghost struct IbcBasicResponseV {
    pub messages: Seq<CosmosMsgV>,
    pub attributes: Seq<AttributeV>,
}

impl View for IbcBasicResponse {
    type V = IbcBasicResponseV;

    open spec fn view(&self) -> IbcBasicResponseV {
        IbcBasicResponseV {
            messages: self.messages@.map_values(|m: CosmosMsg| m@),
            attributes: self.attributes@.map_values(|a: Attribute| a@),
        }
    }
}

/// The outcome of a packet-receive event: the acknowledgement handed
/// back to the transport, beside the instructions and attributes.
#[derive(Debug, Clone, PartialEq)]
pub struct IbcReceiveResponse {
    pub acknowledgement: Vec<u8>,
    pub messages: Vec<CosmosMsg>,
    pub attributes: Vec<Attribute>,
}

/// Ghost image of a receive response.
pub ghost struct IbcReceiveResponseV {
    pub acknowledgement: Seq<u8>,
    pub messages: Seq<CosmosMsgV>,
    pub attributes: Seq<AttributeV>,
}

impl View for IbcReceiveResponse {
    type V = IbcReceiveResponseV;

    open spec fn view(&self) -> IbcReceiveResponseV {
        IbcReceiveResponseV {
            acknowledgement: self.acknowledgement@,
            messages: self.messages@.map_values(|m: CosmosMsg| m@),
            attributes: self.attributes@.map_values(|a: Attribute| a@),
        }
    }
}

/// The instruction that moves `a` to `recipient`: a bank send for a
/// native coin, a token-contract call for a secondary-token balance.
pub open spec fn spec_send_amount(a: AmountV, recipient: Seq<char>) -> CosmosMsgV {
    match a {
        AmountV::Native { denom, amount } => CosmosMsgV::BankSend {
            to_address: recipient,
            denom,
            amount,
        },
        AmountV::Cw20 { address, amount } => CosmosMsgV::Cw20Transfer {
            contract_addr: address,
            recipient,
            amount,
        },
    }
}

/// The bytes of `receive`, the action attribute of a successful receive.
pub open spec fn receive_action_value() -> Seq<u8> {
    seq![114u8, 101u8, 99u8, 101u8, 105u8, 118u8, 101u8]
}

/// The bytes of `timeout`, the reason attached to a timed-out packet.
pub open spec fn timeout_reason() -> Seq<u8> {
    seq![116u8, 105u8, 109u8, 101u8, 111u8, 117u8, 116u8]
}

/// The bytes of `insufficient funds`, the reason an uncovered receive
/// is acknowledged with.
pub open spec fn insufficient_funds_reason() -> Seq<u8> {
    seq![
        105u8,
        110u8,
        115u8,
        117u8,
        102u8,
        102u8,
        105u8,
        99u8,
        105u8,
        101u8,
        110u8,
        116u8,
        32u8,
        102u8,
        117u8,
        110u8,
        100u8,
        115u8,
    ]
}

fn timeout_reason_bytes() -> (r: Vec<u8>)
    ensures
        r@ == timeout_reason(),
{
    let mut v: Vec<u8> = Vec::new();
    v.push(116);
    v.push(105);
    v.push(109);
    v.push(101);
    v.push(111);
    v.push(117);
    v.push(116);
    proof {
        assert(v@ =~= timeout_reason());
    }
    v
}

fn insufficient_funds_bytes() -> (r: Vec<u8>)
    ensures
        r@ == insufficient_funds_reason(),
{
    let mut v: Vec<u8> = Vec::new();
    v.push(105);
    v.push(110);
    v.push(115);
    v.push(117);
    v.push(102);
    v.push(102);
    v.push(105);
    v.push(99);
    v.push(105);
    v.push(101);
    v.push(110);
    v.push(116);
    v.push(32);
    v.push(102);
    v.push(117);
    v.push(110);
    v.push(100);
    v.push(115);
    proof {
        assert(v@ =~= insufficient_funds_reason());
    }
    v
}

fn receive_action_bytes() -> (r: Vec<u8>)
    ensures
        r@ == receive_action_value(),
{
    let mut v: Vec<u8> = Vec::new();
    v.push(114);
    v.push(101);
    v.push(99);
    v.push(101);
    v.push(105);
    v.push(118);
    v.push(101);
    proof {
        assert(v@ =~= receive_action_value());
    }
    v
}

/// Builds the instruction that moves `amount` to `recipient`.
pub fn send_amount(amount: Amount, recipient: String) -> (m: CosmosMsg)
    ensures
        m@ == spec_send_amount(amount@, recipient@),
{
    match amount {
        Amount::Native { denom, amount } => CosmosMsg::BankSend {
            to_address: recipient,
            denom,
            amount,
        },
        Amount::Cw20 { address, amount } => CosmosMsg::Cw20Transfer {
            contract_addr: address,
            recipient,
            amount,
        },
    }
}

/// Validates a proposed channel at channel-open: the version strings
/// and the ordering must match the protocol's fixed parameters.
pub fn ibc_channel_open(channel: &IbcChannel) -> (r: Result<(), ContractError>)
    ensures
        r is Ok <==> spec_channel_acceptable(channel),
        channel.version@ != spec_ics20_version() ==> (r matches Err(
            ContractError::InvalidIbcVersion { version },
        ) && version@ == channel.version@),
        channel.version@ == spec_ics20_version() && !spec_counterparty_version_ok(channel) ==> (r
            matches Err(ContractError::InvalidIbcVersion { version })
            && channel.counterparty_version matches Some(cv) && version@ == cv@),
        channel.version@ == spec_ics20_version() && spec_counterparty_version_ok(channel)
            && channel.order != IbcOrder::Unordered ==> r == Err::<(), ContractError>(
            ContractError::OnlyOrderedChannel {},
        ),
{
    enforce_order_and_version(channel)
}

/// Re-validates the channel at channel-connect and records its routing
/// metadata in the registry, keyed by the local channel identifier.
pub fn ibc_channel_connect(store: &mut Store, channel: IbcChannel) -> (r: Result<
    IbcBasicResponse,
    ContractError,
>)
    requires
        old(store).wf(),
    ensures
        final(store).wf(),
        final(store).ledger_view() == old(store).ledger_view(),
        spec_channel_acceptable(&channel) ==> {
            &&& r matches Ok(resp) && resp@.messages.len() == 0 && resp@.attributes.len() == 0
            &&& final(store).channels_view() == old(store).channels_view().insert(
                channel.endpoint.channel_id@,
                ChannelInfoV {
                    id: channel.endpoint.channel_id@,
                    counterparty_endpoint: channel.counterparty_endpoint@,
                    connection_id: channel.connection_id@,
                },
            )
        },
        !spec_channel_acceptable(&channel) ==> {
            &&& r is Err
            &&& *final(store) == *old(store)
        },
        channel.version@ != spec_ics20_version() ==> (r matches Err(
            ContractError::InvalidIbcVersion { version },
        ) && version@ == channel.version@),
        channel.version@ == spec_ics20_version() && !spec_counterparty_version_ok(&channel) ==> (r
            matches Err(ContractError::InvalidIbcVersion { version })
            && channel.counterparty_version matches Some(cv) && version@ == cv@),
        channel.version@ == spec_ics20_version() && spec_counterparty_version_ok(&channel)
            && channel.order != IbcOrder::Unordered ==> r matches Err(
            ContractError::OnlyOrderedChannel { },
        ),
{
    match enforce_order_and_version(&channel) {
        Ok(()) => {},
        Err(e) => {
            return Err(e);
        },
    }
    let IbcChannel { endpoint, counterparty_endpoint, connection_id, .. } = channel;
    let info = ChannelInfo { id: endpoint.channel_id, counterparty_endpoint, connection_id };
    store.save_channel(info);
    Ok(IbcBasicResponse { messages: Vec::new(), attributes: Vec::new() })
}

/// The soft-failure outcome of a receive that could not be processed:
/// an error acknowledgement for the transport, no value moved, the
/// ledger untouched.
pub fn receive_error_response(reason: Vec<u8>) -> (r: IbcReceiveResponse)
    ensures
        r@.acknowledgement == spec_encode_ack(AckV::Error(reason@)),
        r@.messages.len() == 0,
        r@.attributes.len() == 0,
{
    let acknowledgement = encode_ack(&Ics20Ack::Error(reason));
    IbcReceiveResponse { acknowledgement, messages: Vec::new(), attributes: Vec::new() }
}

/// Handles an inbound transfer packet. Where the escrow ledger covers
/// the amount, it is debited and the value is sent to the packet's
/// receiver under a success acknowledgement; where it does not, the
/// ledger is left unchanged, nothing is sent, and the transport still
/// gets a (successful) acknowledgement carrying the error, so the
/// counterparty can refund the sender.
pub fn ibc_packet_receive(store: &mut Store, packet: IbcPacket) -> (r: IbcReceiveResponse)
    requires
        old(store).wf(),
    ensures
        final(store).wf(),
        final(store).channels_view() == old(store).channels_view(),
        final(store).ledger_view() == apply_event(
            old(store).ledger_view(),
            LedgerEvent::Receive {
                channel: packet.src.channel_id@,
                denom: packet.data.denom@,
                amount: packet.data.amount as u128,
            },
        ),
        ({
            let k = (packet.src.channel_id@, packet.data.denom@);
            let a = packet.data.amount as u128;
            if old(store).ledger_view().contains_key(k) && old(
                store,
            ).ledger_view()[k].outstanding >= a {
                &&& final(store).ledger_view() == old(store).ledger_view().insert(
                    k,
                    ChannelState {
                        outstanding: (old(store).ledger_view()[k].outstanding - a) as u128,
                        total_sent: old(store).ledger_view()[k].total_sent,
                    },
                )
                &&& r@.acknowledgement == spec_encode_ack(AckV::Result(seq![49u8]))
                &&& r@.messages == seq![
                    spec_send_amount(
                        spec_amount_from_parts(packet.data.denom@, a),
                        packet.data.receiver@,
                    ),
                ]
                &&& r@.attributes.len() == 1
                &&& r@.attributes[0].key == "action"@
                &&& r@.attributes[0].value == receive_action_value()
            } else {
                &&& *final(store) == *old(store)
                &&& r@.acknowledgement == spec_encode_ack(
                    AckV::Error(insufficient_funds_reason()),
                )
                &&& r@.messages.len() == 0
                &&& r@.attributes.len() == 0
            }
        }),
{
    let IbcPacket { data, src, .. } = packet;
    let amount: u128 = data.amount as u128;
    match store.reduce_outstanding(src.channel_id.as_str(), data.denom.as_str(), amount) {
        Ok(()) => {},
        Err(_) => {
            return receive_error_response(insufficient_funds_bytes());
        },
    }
    let to_send = Amount::from_parts(data.denom, amount);
    let msg = send_amount(to_send, data.receiver);
    let acknowledgement = ack_success();
    let mut messages: Vec<CosmosMsg> = Vec::new();
    messages.push(msg);
    let mut attributes: Vec<Attribute> = Vec::new();
    attributes.push(Attribute { key: String::from_str("action"), value: receive_action_bytes() });
    let r = IbcReceiveResponse { acknowledgement, messages, attributes };
    proof {
        assert(r@.messages =~= seq![
            spec_send_amount(spec_amount_from_parts(packet.data.denom@, amount), packet.data.receiver@),
        ]);
        assert(r@.attributes.len() == 1);
    }
    r
}

/// Credits the escrow ledger for a confirmed outbound transfer: both
/// `outstanding` and `total_sent` for the packet's (origin channel,
/// denomination) grow by the sent amount. The record is created with
/// zeroed balances first where none exists.
fn on_packet_success(store: &mut Store, packet: IbcPacket) -> (r: Result<
    IbcBasicResponse,
    ContractError,
>)
    requires
        old(store).wf(),
    ensures
        final(store).wf(),
        final(store).channels_view() == old(store).channels_view(),
        ({
            let k = (packet.src.channel_id@, packet.data.denom@);
            let a = packet.data.amount as u128;
            let prior = if old(store).ledger_view().contains_key(k) {
                old(store).ledger_view()[k]
            } else {
                ChannelState { outstanding: 0, total_sent: 0 }
            };
            if prior.outstanding + a <= u128::MAX && prior.total_sent + a <= u128::MAX {
                &&& r matches Ok(resp) && resp@.messages.len() == 0 && resp@.attributes.len() == 0
                &&& final(store).ledger_view() == old(store).ledger_view().insert(
                    k,
                    ChannelState {
                        outstanding: (prior.outstanding + a) as u128,
                        total_sent: (prior.total_sent + a) as u128,
                    },
                )
            } else {
                &&& r == Err::<IbcBasicResponse, ContractError>(ContractError::Overflow {})
                &&& *final(store) == *old(store)
            }
        }),
{
    let IbcPacket { data, src, .. } = packet;
    let amount: u128 = data.amount as u128;
    match store.credit(src.channel_id.as_str(), data.denom.as_str(), amount) {
        Ok(()) => Ok(IbcBasicResponse { messages: Vec::new(), attributes: Vec::new() }),
        Err(e) => Err(e),
    }
}

/// Returns the locked value of a failed outbound transfer to its
/// original sender, attaching the failure reason. The ledger is not
/// touched: it was never credited for the pending send.
fn on_packet_failure(packet: IbcPacket, err: Vec<u8>) -> (r: IbcBasicResponse)
    ensures
        r@.messages == seq![
            spec_send_amount(
                spec_amount_from_parts(packet.data.denom@, packet.data.amount as u128),
                packet.data.sender@,
            ),
        ],
        r@.attributes.len() == 1,
        r@.attributes[0].key == "ibc_error"@,
        r@.attributes[0].value == err@,
{
    let IbcPacket { data, .. } = packet;
    let amount = Amount::from_parts(data.denom, data.amount as u128);
    let msg = send_amount(amount, data.sender);
    let mut messages: Vec<CosmosMsg> = Vec::new();
    messages.push(msg);
    let mut attributes: Vec<Attribute> = Vec::new();
    attributes.push(Attribute { key: String::from_str("ibc_error"), value: err });
    let r = IbcBasicResponse { messages, attributes };
    proof {
        assert(r@.messages =~= seq![
            spec_send_amount(
                spec_amount_from_parts(packet.data.denom@, packet.data.amount as u128),
                packet.data.sender@,
            ),
        ]);
        assert(r@.attributes.len() == 1);
    }
    r
}

/// Handles an acknowledgement for a packet this chain sent: a success
/// envelope credits the escrow ledger, an error envelope returns the
/// value to the sender and leaves the ledger alone, and an envelope
/// that does not decode is rejected.
pub fn ibc_packet_ack(store: &mut Store, ack: IbcAcknowledgement) -> (r: Result<
    IbcBasicResponse,
    ContractError,
>)
    requires
        old(store).wf(),
    ensures
        final(store).wf(),
        final(store).channels_view() == old(store).channels_view(),
        final(store).ledger_view() == match spec_decode_ack(ack.acknowledgement@) {
            Some(AckV::Result(_)) => apply_event(
                old(store).ledger_view(),
                LedgerEvent::AckSuccess {
                    channel: ack.original_packet.src.channel_id@,
                    denom: ack.original_packet.data.denom@,
                    amount: ack.original_packet.data.amount as u128,
                },
            ),
            _ => old(store).ledger_view(),
        },
        ({
            let k = (ack.original_packet.src.channel_id@, ack.original_packet.data.denom@);
            let a = ack.original_packet.data.amount as u128;
            match spec_decode_ack(ack.acknowledgement@) {
                Some(AckV::Result(_)) => {
                    let prior = if old(store).ledger_view().contains_key(k) {
                        old(store).ledger_view()[k]
                    } else {
                        ChannelState { outstanding: 0, total_sent: 0 }
                    };
                    if prior.outstanding + a <= u128::MAX && prior.total_sent + a <= u128::MAX {
                        &&& r matches Ok(resp) && resp@.messages.len() == 0
                            && resp@.attributes.len() == 0
                        &&& final(store).ledger_view() == old(store).ledger_view().insert(
                            k,
                            ChannelState {
                                outstanding: (prior.outstanding + a) as u128,
                                total_sent: (prior.total_sent + a) as u128,
                            },
                        )
                    } else {
                        &&& r == Err::<IbcBasicResponse, ContractError>(ContractError::Overflow {})
                        &&& *final(store) == *old(store)
                    }
                },
                Some(AckV::Error(reason)) => {
                    &&& *final(store) == *old(store)
                    &&& r matches Ok(resp)
                    &&& resp@.messages == seq![
                        spec_send_amount(
                            spec_amount_from_parts(ack.original_packet.data.denom@, a),
                            ack.original_packet.data.sender@,
                        ),
                    ]
                    &&& resp@.attributes.len() == 1
                    &&& resp@.attributes[0].key == "ibc_error"@
                    &&& resp@.attributes[0].value == reason
                },
                None => {
                    &&& r == Err::<IbcBasicResponse, ContractError>(ContractError::MalformedAck {})
                    &&& *final(store) == *old(store)
                },
            }
        }),
{
    let IbcAcknowledgement { acknowledgement, original_packet } = ack;
    match decode_ack(acknowledgement.as_slice()) {
        Ok(Ics20Ack::Result(_)) => on_packet_success(store, original_packet),
        Ok(Ics20Ack::Error(reason)) => Ok(on_packet_failure(original_packet, reason)),
        Err(e) => Err(e),
    }
}

/// Handles a timeout for a packet this chain sent: exactly as an error
/// acknowledgement, with the literal reason `timeout`. The ledger is
/// not touched.
pub fn ibc_packet_timeout(packet: IbcPacket) -> (r: IbcBasicResponse)
    ensures
        r@.messages == seq![
            spec_send_amount(
                spec_amount_from_parts(packet.data.denom@, packet.data.amount as u128),
                packet.data.sender@,
            ),
        ],
        r@.attributes.len() == 1,
        r@.attributes[0].key == "ibc_error"@,
        r@.attributes[0].value == timeout_reason(),
{
    on_packet_failure(packet, timeout_reason_bytes())
}

} // verus!
