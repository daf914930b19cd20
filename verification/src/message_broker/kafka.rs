//! The configuration of a Kafka producer.

use crate::message_broker::{Delivery, DeliveryResult, DeliveryResultView, FailureKind, ProduceFailure};
use crate::text::{unsigned_string, unsigned_text};
use rdkafka::ClientConfig;
use vstd::prelude::*;
use vstd::string::StringExecFns;

verus! {

/// The client configuration of the `rdkafka` crate.
#[verifier::external_type_specification]
#[verifier::external_body]
pub struct ExClientConfig(ClientConfig);

/// The parameters that a client configuration holds, by their names.
pub uninterp spec fn config_entries(config: ClientConfig) -> Map<Seq<char>, Seq<char>>;

/// A configuration without parameters.
pub open spec fn no_entries() -> Map<Seq<char>, Seq<char>> {
    Map::empty()
}

/// `ClientConfig::new` of the `rdkafka` crate: a configuration without
/// parameters.
#[verifier::external_body]
fn new_config() -> (config: ClientConfig)
    ensures
        config_entries(config) == no_entries(),
{
    ClientConfig::new()
}

/// `ClientConfig::set` of the `rdkafka` crate: the parameter `key` gets
/// the value `value`, whether or not it had one, and no other changes.
#[verifier::external_body]
fn set_entry(config: &mut ClientConfig, key: &str, value: String)
    ensures
        config_entries(*final(config)) == config_entries(*old(config)).insert(key@, value@),
{
    config.set(key, value);
}

/// `ClientConfig::get` of the `rdkafka` crate: the value that the
/// parameter `key` was set to, if it was set.
#[verifier::external_body]
fn get_entry(config: &ClientConfig, key: &str) -> (value: Option<String>)
    ensures
        match value {
            Some(text) => config_entries(*config).contains_key(key@) && config_entries(*config)[key@] == text@,
            None => !config_entries(*config).contains_key(key@),
        },
{
    match config.get(key) {
        Some(text) => Some(text.to_string()),
        None => None,
    }
}

/// The address of a broker.
#[derive(Clone, Debug, PartialEq, Eq)]
pub enum BrokerAddr {
    /// An IPv4 address, by its four octets, and a port.
    SocketAddr([u8; 4], u16),
    /// A host name, or an address in its written form, and a port.
    DomainName(String, u16),
}

/// The address of a broker as a value.
pub enum BrokerAddrView {
    SocketAddr(Seq<u8>, u16),
    DomainName(Seq<char>, u16),
}

impl View for BrokerAddr {
    type V = BrokerAddrView;

    open spec fn view(&self) -> BrokerAddrView {
        match self {
            BrokerAddr::SocketAddr(octets, port) => BrokerAddrView::SocketAddr(octets@, *port),
            BrokerAddr::DomainName(host, port) => BrokerAddrView::DomainName(host@, *port),
        }
    }
}

/// The parameter that names the brokers to contact first.
pub const BOOTSTRAP_SERVERS: &'static str = "bootstrap.servers";

/// An address as `host:port`, an IPv4 host in dotted decimal.
pub open spec fn addr_text(addr: BrokerAddrView) -> Seq<char> {
    match addr {
        BrokerAddrView::SocketAddr(octets, port) => unsigned_text(octets[0] as nat) + "."@ + unsigned_text(
            octets[1] as nat,
        ) + "."@ + unsigned_text(octets[2] as nat) + "."@ + unsigned_text(octets[3] as nat) + ":"@
            + unsigned_text(port as nat),
        BrokerAddrView::DomainName(host, port) => host + ":"@ + unsigned_text(port as nat),
    }
}

/// The addresses, in their order, with a comma between one and the next.
pub open spec fn bootstrap_text(brokers: Seq<BrokerAddrView>) -> Seq<char>
    decreases brokers.len(),
{
    if brokers.len() == 0 {
        Seq::empty()
    } else if brokers.len() == 1 {
        addr_text(brokers[0])
    } else {
        bootstrap_text(brokers.drop_last()) + ","@ + addr_text(brokers.last())
    }
}

/// The views of the addresses of a list.
pub open spec fn addr_views(brokers: Seq<BrokerAddr>) -> Seq<BrokerAddrView> {
    Seq::new(brokers.len(), |i: int| brokers[i]@)
}

/// Writes an address as `host:port`.
pub fn addr_string(addr: &BrokerAddr) -> (text: String)
    ensures
        text@ == addr_text(addr@),
{
    match addr {
        BrokerAddr::SocketAddr(octets, port) => {
            let mut text = unsigned_string(octets[0] as u64);
            text.append(".");
            text.append(unsigned_string(octets[1] as u64).as_str());
            text.append(".");
            text.append(unsigned_string(octets[2] as u64).as_str());
            text.append(".");
            text.append(unsigned_string(octets[3] as u64).as_str());
            text.append(":");
            text.append(unsigned_string(*port as u64).as_str());
            text
        },
        BrokerAddr::DomainName(host, port) => {
            let mut text = host.clone();
            text.append(":");
            text.append(unsigned_string(*port as u64).as_str());
            text
        },
    }
}

/// Writes the value of the bootstrap parameter for a list of brokers.
pub fn bootstrap_servers(brokers: &[BrokerAddr]) -> (text: String)
    ensures
        text@ == bootstrap_text(addr_views(brokers@)),
{
    let mut text = String::new();
    let mut i: usize = 0;
    let ghost views = addr_views(brokers@);
    assert(views.take(0) =~= Seq::empty());
    while i < brokers.len()
        invariant
            i <= brokers.len(),
            views == addr_views(brokers@),
            text@ == bootstrap_text(views.take(i as int)),
        decreases brokers.len() - i,
    {
        proof {
            assert(views.take(i + 1).drop_last() =~= views.take(i as int));
            assert(views.take(i + 1).last() == brokers@[i as int]@);
            if i == 0 {
                assert(views.take(1)[0] == brokers@[0]@);
            }
        }
        if i > 0 {
            text.append(",");
        }
        let one = addr_string(&brokers[i]);
        text.append(one.as_str());
        i = i + 1;
    }
    assert(views.take(i as int) =~= views);
    text
}

/// Collects the configuration of a Kafka producer.
pub struct KafkaProducerBuilder {
    client_config: ClientConfig,
}

impl KafkaProducerBuilder {
    /// The parameters set so far, by their names.
    pub closed spec fn entries(&self) -> Map<Seq<char>, Seq<char>> {
        config_entries(self.client_config)
    }

    /// A builder with no parameter set.
    pub fn new() -> (builder: KafkaProducerBuilder)
        ensures
            builder.entries() == no_entries(),
    {
        KafkaProducerBuilder { client_config: new_config() }
    }

    /// Names the brokers to contact first, in place of any named before.
    pub fn set_bootstrap(self, brokers: &[BrokerAddr]) -> (builder: KafkaProducerBuilder)
        ensures
            builder.entries() == self.entries().insert(BOOTSTRAP_SERVERS@, bootstrap_text(addr_views(brokers@))),
    {
        let mut builder = self;
        let servers = bootstrap_servers(brokers);
        set_entry(&mut builder.client_config, BOOTSTRAP_SERVERS, servers);
        builder
    }

    /// The brokers named, as the configuration holds them.
    pub fn bootstrap(&self) -> (servers: Option<String>)
        ensures
            match servers {
                Some(text) => self.entries().contains_key(BOOTSTRAP_SERVERS@) && self.entries()[BOOTSTRAP_SERVERS@]
                    == text@,
                None => !self.entries().contains_key(BOOTSTRAP_SERVERS@),
            },
    {
        get_entry(&self.client_config, BOOTSTRAP_SERVERS)
    }

    /// Hands out the configuration, from which a producer is created.
    pub fn into_config(self) -> (config: ClientConfig)
        ensures
            config_entries(config) == self.entries(),
    {
        self.client_config
    }
}

/// The client's code for a message that was not acknowledged in time.
pub const MESSAGE_TIMED_OUT: i32 = -192;

/// The broker's code for a request that it did not serve in time.
pub const REQUEST_TIMED_OUT: i32 = 7;

/// The broker's code for a message that fails its checksum or is
/// otherwise corrupt.
pub const INVALID_MESSAGE: i32 = 2;

/// The broker's code for a message of an impossible size.
pub const INVALID_MESSAGE_SIZE: i32 = 4;

/// The broker's code for a message that is larger than it takes.
pub const MESSAGE_SIZE_TOO_LARGE: i32 = 10;

/// The kind of failure that an error code of the Kafka client stands for,
/// or that an error without a code is: a failure is a timeout or a refusal
/// of the message where its code says so, and counts as an unreachable
/// broker otherwise.
pub open spec fn failure_of_code(code: Option<i32>) -> FailureKind {
    match code {
        None => FailureKind::BrokerUnavailable,
        Some(c) => {
            if c == MESSAGE_TIMED_OUT || c == REQUEST_TIMED_OUT {
                FailureKind::DeliveryTimeout
            } else if c == INVALID_MESSAGE || c == INVALID_MESSAGE_SIZE || c == MESSAGE_SIZE_TOO_LARGE {
                FailureKind::MessageRejected
            } else {
                FailureKind::BrokerUnavailable
            }
        },
    }
}

/// How a send ended, by what the Kafka client reports of it: partition and
/// offset of a delivered message, or the code, if any, and the text of its
/// error.
pub open spec fn delivery_of(outcome: Result<(i32, i64), (Option<i32>, Seq<char>)>) -> DeliveryResultView {
    match outcome {
        Ok((partition, offset)) => DeliveryResultView::Delivered(Delivery { partition, offset }),
        Err((code, text)) => DeliveryResultView::Failed { kind: failure_of_code(code), description: text },
    }
}

/// Sorts a failure of the Kafka client by its error code.
pub fn classify_failure(code: Option<i32>) -> (kind: FailureKind)
    ensures
        kind == failure_of_code(code),
{
    match code {
        None => FailureKind::BrokerUnavailable,
        Some(c) => {
            if c == MESSAGE_TIMED_OUT || c == REQUEST_TIMED_OUT {
                FailureKind::DeliveryTimeout
            } else if c == INVALID_MESSAGE || c == INVALID_MESSAGE_SIZE || c == MESSAGE_SIZE_TOO_LARGE {
                FailureKind::MessageRejected
            } else {
                FailureKind::BrokerUnavailable
            }
        },
    }
}

/// Turns what the Kafka client reports of a send into a delivery result.
pub fn delivery_result(outcome: Result<(i32, i64), (Option<i32>, String)>) -> (result: DeliveryResult)
    ensures
        result@ == delivery_of(
            match outcome {
                Ok(placed) => Ok(placed),
                Err((code, text)) => Err((code, text@)),
            },
        ),
{
    match outcome {
        Ok((partition, offset)) => DeliveryResult::Delivered(Delivery { partition, offset }),
        Err((code, text)) => DeliveryResult::Failed(
            ProduceFailure { kind: classify_failure(code), description: text },
        ),
    }
}

} // verus!
