use vstd::prelude::*;

use crate::error::ContractError;

verus! {

/// The fixed protocol version string that both sides of a channel
/// handshake must propose.
pub open spec fn spec_ics20_version() -> Seq<char> {
    "ics20-1"@
}

/// Ordering modes a transport channel can be negotiated with.
#[derive(Debug, Clone, Copy, PartialEq, Eq, Structural)]
pub enum IbcOrder {
    Ordered,
    Unordered,
}

/// One end of a channel: a port on a chain and the channel identifier
/// local to that port.
#[derive(Debug, Clone, PartialEq)]
pub struct IbcEndpoint {
    pub port_id: String,
    pub channel_id: String,
}

/// Ghost image of an endpoint.
pub ghost struct EndpointV {
    pub port_id: Seq<char>,
    pub channel_id: Seq<char>,
}

impl View for IbcEndpoint {
    type V = EndpointV;

    open spec fn view(&self) -> EndpointV {
        EndpointV { port_id: self.port_id@, channel_id: self.channel_id@ }
    }
}

/// The negotiated parameters of a channel as the transport hands them to
/// the application during the handshake.
#[derive(Debug, Clone, PartialEq)]
pub struct IbcChannel {
    pub endpoint: IbcEndpoint,
    pub counterparty_endpoint: IbcEndpoint,
    pub order: IbcOrder,
    pub version: String,
    /// The counterparty's proposed version, once it is known.
    pub counterparty_version: Option<String>,
    pub connection_id: String,
}

/// Routing metadata recorded for a connected channel, keyed by the local
/// channel identifier. Written once, at channel-connect time.
#[derive(Debug, Clone, PartialEq)]
pub struct ChannelInfo {
    pub id: String,
    pub counterparty_endpoint: IbcEndpoint,
    pub connection_id: String,
}

/// Ghost image of a registry record.
pub ghost struct ChannelInfoV {
    pub id: Seq<char>,
    pub counterparty_endpoint: EndpointV,
    pub connection_id: Seq<char>,
}

impl View for ChannelInfo {
    type V = ChannelInfoV;

    open spec fn view(&self) -> ChannelInfoV {
        ChannelInfoV {
            id: self.id@,
            counterparty_endpoint: self.counterparty_endpoint@,
            connection_id: self.connection_id@,
        }
    }
}

/// Whether the counterparty version, where already known, equals the
/// fixed protocol version.
pub open spec fn spec_counterparty_version_ok(c: &IbcChannel) -> bool {
    match c.counterparty_version {
        Some(v) => v@ == spec_ics20_version(),
        None => true,
    }
}

/// The negotiated parameters the handshake accepts: both version strings
/// equal the fixed protocol version and the channel is unordered.
pub open spec fn spec_channel_acceptable(c: &IbcChannel) -> bool {
    &&& c.version@ == spec_ics20_version()
    &&& spec_counterparty_version_ok(c)
    &&& c.order == IbcOrder::Unordered
}

/// Character-by-character string equality, decided over the views.
pub fn str_eq(a: &str, b: &str) -> (r: bool)
    ensures
        r == (a@ == b@),
{
    let alen = a.unicode_len();
    let blen = b.unicode_len();
    if alen != blen {
        assert(a@ != b@) by {
            assert(a@.len() != b@.len());
        }
        return false;
    }
    let mut i: usize = 0;
    while i < alen
        invariant
            alen == a@.len(),
            alen == b@.len(),
            i <= alen,
            forall|j: int| 0 <= j < i ==> a@[j] == b@[j],
        decreases alen - i,
    {
        if a.get_char(i) != b.get_char(i) {
            return false;
        }
        i += 1;
    }
    assert(a@ =~= b@);
    true
}

/// The fixed protocol version identifier.
pub fn ics20_version() -> (r: &'static str)
    ensures
        r@ == spec_ics20_version(),
{
    "ics20-1"
}

/// Validates the version strings and the ordering of a proposed channel,
/// exactly as both handshake steps require.
pub fn enforce_order_and_version(channel: &IbcChannel) -> (r: Result<(), ContractError>)
    ensures
        r is Ok <==> spec_channel_acceptable(channel),
        channel.version@ != spec_ics20_version() ==> (r matches Err(
            ContractError::InvalidIbcVersion { version },
        ) && version@ == channel.version@),
        channel.version@ == spec_ics20_version() && !spec_counterparty_version_ok(channel) ==> (r
            matches Err(ContractError::InvalidIbcVersion { version })
            && channel.counterparty_version matches Some(cv) && version@ == cv@),
        channel.version@ == spec_ics20_version() && spec_counterparty_version_ok(channel)
            && channel.order != IbcOrder::Unordered ==> r == Err::<(), ContractError>(
            ContractError::OnlyOrderedChannel {},
        ),
{
    if !str_eq(channel.version.as_str(), ics20_version()) {
        return Err(ContractError::InvalidIbcVersion { version: channel.version.clone() });
    }
    match &channel.counterparty_version {
        Some(version) => {
            if !str_eq(version.as_str(), ics20_version()) {
                return Err(ContractError::InvalidIbcVersion { version: version.clone() });
            }
        },
        None => {},
    }
    if channel.order != IbcOrder::Unordered {
        return Err(ContractError::OnlyOrderedChannel {});
    }
    Ok(())
}

} // verus!
