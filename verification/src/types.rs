//! Core value types: quality of service, protocol version, and the error
//! taxonomy of the client.

use vstd::prelude::*;

verus! {

/// Quality of service level of a message, governing the delivery
/// acknowledgement handshake.
#[derive(Debug, Clone, Copy, PartialEq, Eq, Structural)]
pub enum QoS {
    /// Fire and forget: the message is published once, with no
    /// acknowledgement from the broker.
    AtMostOnce,
    /// The message is retransmitted until a PUBACK arrives; it may reach
    /// the broker more than once.
    AtLeastOnce,
    /// A four-step handshake (PUBLISH, PUBREC, PUBREL, PUBCOMP) guarantees
    /// the message is accepted exactly once.
    ExactlyOnce,
}

impl QoS {
    /// The wire value of the level: 0, 1 or 2.
    pub open spec fn as_byte(self) -> u8 {
        match self {
            QoS::AtMostOnce => 0,
            QoS::AtLeastOnce => 1,
            QoS::ExactlyOnce => 2,
        }
    }

    /// Executable form of [`QoS::as_byte`].
    pub fn to_byte(self) -> (r: u8)
        ensures
            r == self.as_byte(),
    {
        match self {
            QoS::AtMostOnce => 0,
            QoS::AtLeastOnce => 1,
            QoS::ExactlyOnce => 2,
        }
    }

    /// Parses a wire value; 3 is reserved and every value above 2 is
    /// rejected.
    pub fn from_byte(b: u8) -> (r: Option<QoS>)
        ensures
            r is Some <==> b <= 2,
            r is Some ==> r->Some_0.as_byte() == b,
    {
        match b {
            0 => Some(QoS::AtMostOnce),
            1 => Some(QoS::AtLeastOnce),
            2 => Some(QoS::ExactlyOnce),
            _ => None,
        }
    }
}

/// The QoS level a wire byte stands for; parsers reject bytes above two,
/// so the clamp here is never reached on validated input.
pub open spec fn spec_qos_from(b: u8) -> QoS {
    if b == 0 {
        QoS::AtMostOnce
    } else if b == 1 {
        QoS::AtLeastOnce
    } else {
        QoS::ExactlyOnce
    }
}

impl Default for QoS {
    /// The default level is at-most-once, matching a plain fire-and-forget
    /// publish.
    fn default() -> (r: QoS)
        ensures
            r == QoS::AtMostOnce,
    {
        QoS::AtMostOnce
    }
}

/// MQTT protocol revision spoken on the connection.
#[derive(Debug, Clone, Copy, PartialEq, Eq, Structural)]
pub enum Version {
    /// MQTT v3.1.1 (protocol level 4 on the wire).
    V311,
    /// MQTT v5.0 (protocol level 5 on the wire).
    V5,
}

impl Version {
    /// The protocol level byte carried in the CONNECT packet.
    pub open spec fn level(self) -> u8 {
        match self {
            Version::V311 => 4,
            Version::V5 => 5,
        }
    }
}

/// The sixteen MQTT control packet types, plus the pseudo-kind `Will` for
/// the will properties carried inside CONNECT.
#[derive(Debug, Clone, Copy, PartialEq, Eq, Structural)]
pub enum PacketKind {
    Connect,
    Connack,
    Publish,
    Puback,
    Pubrec,
    Pubrel,
    Pubcomp,
    Subscribe,
    Suback,
    Unsubscribe,
    Unsuback,
    Pingreq,
    Pingresp,
    Disconnect,
    Auth,
    Will,
}

/// Why an operation of the client failed.
#[derive(Debug, Clone, Copy, PartialEq, Eq, Structural)]
pub enum ClientError {
    /// A topic, filter, payload or size argument is not acceptable.
    InvalidArgument,
    /// The operation needs a connected session and there is none.
    NotConnected,
    /// `connect` was called while the session is already connected.
    AlreadyConnected,
    /// `connect` was called while a CONNECT handshake is outstanding.
    ConnectInProgress,
    /// The peer sent a packet that the protocol forbids in this state.
    ProtocolViolation,
    /// The property identifier is not allowed on the target packet type.
    PropertyNotAllowed,
    /// A single-valued property identifier was added twice.
    DuplicateProperty,
    /// A delivery exhausted its retry budget.
    DeliveryFailed,
    /// The underlying transport failed.
    SocketError,
    /// The operation was abandoned because the session disconnected.
    Disconnected,
}


/// The six CONNACK return codes of MQTT v3.1.1.
#[derive(Debug, Clone, Copy, PartialEq, Eq, Structural)]
#[allow(non_camel_case_types)]
pub enum mqtt311_connack_codes {
    Accepted,
    RefusedProtocolVersion,
    RefusedIdentifierRejected,
    RefusedServerUnavailable,
    RefusedBadUsernamePassword,
    RefusedNotAuthorized,
}

impl mqtt311_connack_codes {
    /// The wire value of the return code.
    pub open spec fn spec_byte(self) -> u8 {
        match self {
            mqtt311_connack_codes::Accepted => 0,
            mqtt311_connack_codes::RefusedProtocolVersion => 1,
            mqtt311_connack_codes::RefusedIdentifierRejected => 2,
            mqtt311_connack_codes::RefusedServerUnavailable => 3,
            mqtt311_connack_codes::RefusedBadUsernamePassword => 4,
            mqtt311_connack_codes::RefusedNotAuthorized => 5,
        }
    }

    /// Executable form of [`mqtt311_connack_codes::spec_byte`].
    pub fn to_byte(self) -> (r: u8)
        ensures
            r == self.spec_byte(),
    {
        match self {
            mqtt311_connack_codes::Accepted => 0,
            mqtt311_connack_codes::RefusedProtocolVersion => 1,
            mqtt311_connack_codes::RefusedIdentifierRejected => 2,
            mqtt311_connack_codes::RefusedServerUnavailable => 3,
            mqtt311_connack_codes::RefusedBadUsernamePassword => 4,
            mqtt311_connack_codes::RefusedNotAuthorized => 5,
        }
    }
}

/// The MQTT 5 reason codes, shared by the acknowledgement packets.
#[derive(Debug, Clone, Copy, PartialEq, Eq, Structural)]
#[allow(non_camel_case_types)]
pub enum mqtt5_return_codes {
    Success,
    GrantedQos1,
    GrantedQos2,
    DisconnectWithWillMsg,
    NoMatchingSubscribers,
    NoSubscriptionExisted,
    ContinueAuthentication,
    Reauthenticate,
    Unspecified,
    MalformedPacket,
    ProtocolError,
    ImplementationSpecific,
    UnsupportedProtocolVersion,
    ClientidNotValid,
    BadUsernameOrPassword,
    NotAuthorized,
    ServerUnavailable,
    ServerBusy,
    Banned,
    ServerShuttingDown,
    BadAuthenticationMethod,
    KeepAliveTimeout,
    SessionTakenOver,
    TopicFilterInvalid,
    TopicNameInvalid,
    PacketIdInUse,
    PacketIdNotFound,
    ReceiveMaximumExceeded,
    TopicAliasInvalid,
    PacketTooLarge,
    MessageRateTooHigh,
    QuotaExceeded,
    AdministrativeAction,
    PayloadFormatInvalid,
    RetainNotSupported,
    QosNotSupported,
    UseAnotherServer,
    ServerMoved,
    SharedSubsNotSupported,
    ConnectionRateExceeded,
    MaximumConnectTime,
    SubscriptionIdsNotSupported,
    WildcardSubsNotSupported,
}

impl mqtt5_return_codes {
    /// The wire value of the reason code.
    pub open spec fn spec_byte(self) -> u8 {
        match self {
            mqtt5_return_codes::Success => 0,
            mqtt5_return_codes::GrantedQos1 => 1,
            mqtt5_return_codes::GrantedQos2 => 2,
            mqtt5_return_codes::DisconnectWithWillMsg => 4,
            mqtt5_return_codes::NoMatchingSubscribers => 16,
            mqtt5_return_codes::NoSubscriptionExisted => 17,
            mqtt5_return_codes::ContinueAuthentication => 24,
            mqtt5_return_codes::Reauthenticate => 25,
            mqtt5_return_codes::Unspecified => 128,
            mqtt5_return_codes::MalformedPacket => 129,
            mqtt5_return_codes::ProtocolError => 130,
            mqtt5_return_codes::ImplementationSpecific => 131,
            mqtt5_return_codes::UnsupportedProtocolVersion => 132,
            mqtt5_return_codes::ClientidNotValid => 133,
            mqtt5_return_codes::BadUsernameOrPassword => 134,
            mqtt5_return_codes::NotAuthorized => 135,
            mqtt5_return_codes::ServerUnavailable => 136,
            mqtt5_return_codes::ServerBusy => 137,
            mqtt5_return_codes::Banned => 138,
            mqtt5_return_codes::ServerShuttingDown => 139,
            mqtt5_return_codes::BadAuthenticationMethod => 140,
            mqtt5_return_codes::KeepAliveTimeout => 141,
            mqtt5_return_codes::SessionTakenOver => 142,
            mqtt5_return_codes::TopicFilterInvalid => 143,
            mqtt5_return_codes::TopicNameInvalid => 144,
            mqtt5_return_codes::PacketIdInUse => 145,
            mqtt5_return_codes::PacketIdNotFound => 146,
            mqtt5_return_codes::ReceiveMaximumExceeded => 147,
            mqtt5_return_codes::TopicAliasInvalid => 148,
            mqtt5_return_codes::PacketTooLarge => 149,
            mqtt5_return_codes::MessageRateTooHigh => 150,
            mqtt5_return_codes::QuotaExceeded => 151,
            mqtt5_return_codes::AdministrativeAction => 152,
            mqtt5_return_codes::PayloadFormatInvalid => 153,
            mqtt5_return_codes::RetainNotSupported => 154,
            mqtt5_return_codes::QosNotSupported => 155,
            mqtt5_return_codes::UseAnotherServer => 156,
            mqtt5_return_codes::ServerMoved => 157,
            mqtt5_return_codes::SharedSubsNotSupported => 158,
            mqtt5_return_codes::ConnectionRateExceeded => 159,
            mqtt5_return_codes::MaximumConnectTime => 160,
            mqtt5_return_codes::SubscriptionIdsNotSupported => 161,
            mqtt5_return_codes::WildcardSubsNotSupported => 162,
        }
    }

    /// Executable form of [`mqtt5_return_codes::spec_byte`].
    pub fn to_byte(self) -> (r: u8)
        ensures
            r == self.spec_byte(),
    {
        match self {
            mqtt5_return_codes::Success => 0,
            mqtt5_return_codes::GrantedQos1 => 1,
            mqtt5_return_codes::GrantedQos2 => 2,
            mqtt5_return_codes::DisconnectWithWillMsg => 4,
            mqtt5_return_codes::NoMatchingSubscribers => 16,
            mqtt5_return_codes::NoSubscriptionExisted => 17,
            mqtt5_return_codes::ContinueAuthentication => 24,
            mqtt5_return_codes::Reauthenticate => 25,
            mqtt5_return_codes::Unspecified => 128,
            mqtt5_return_codes::MalformedPacket => 129,
            mqtt5_return_codes::ProtocolError => 130,
            mqtt5_return_codes::ImplementationSpecific => 131,
            mqtt5_return_codes::UnsupportedProtocolVersion => 132,
            mqtt5_return_codes::ClientidNotValid => 133,
            mqtt5_return_codes::BadUsernameOrPassword => 134,
            mqtt5_return_codes::NotAuthorized => 135,
            mqtt5_return_codes::ServerUnavailable => 136,
            mqtt5_return_codes::ServerBusy => 137,
            mqtt5_return_codes::Banned => 138,
            mqtt5_return_codes::ServerShuttingDown => 139,
            mqtt5_return_codes::BadAuthenticationMethod => 140,
            mqtt5_return_codes::KeepAliveTimeout => 141,
            mqtt5_return_codes::SessionTakenOver => 142,
            mqtt5_return_codes::TopicFilterInvalid => 143,
            mqtt5_return_codes::TopicNameInvalid => 144,
            mqtt5_return_codes::PacketIdInUse => 145,
            mqtt5_return_codes::PacketIdNotFound => 146,
            mqtt5_return_codes::ReceiveMaximumExceeded => 147,
            mqtt5_return_codes::TopicAliasInvalid => 148,
            mqtt5_return_codes::PacketTooLarge => 149,
            mqtt5_return_codes::MessageRateTooHigh => 150,
            mqtt5_return_codes::QuotaExceeded => 151,
            mqtt5_return_codes::AdministrativeAction => 152,
            mqtt5_return_codes::PayloadFormatInvalid => 153,
            mqtt5_return_codes::RetainNotSupported => 154,
            mqtt5_return_codes::QosNotSupported => 155,
            mqtt5_return_codes::UseAnotherServer => 156,
            mqtt5_return_codes::ServerMoved => 157,
            mqtt5_return_codes::SharedSubsNotSupported => 158,
            mqtt5_return_codes::ConnectionRateExceeded => 159,
            mqtt5_return_codes::MaximumConnectTime => 160,
            mqtt5_return_codes::SubscriptionIdsNotSupported => 161,
            mqtt5_return_codes::WildcardSubsNotSupported => 162,
        }
    }
}

/// The subscription option bits of an MQTT 5 SUBSCRIBE entry.
#[derive(Debug, Clone, Copy, PartialEq, Eq, Structural)]
#[allow(non_camel_case_types)]
pub enum mqtt5_sub_options {
    NoLocal,
    RetainAsPublished,
    SendRetainAlways,
    SendRetainNew,
    SendRetainNever,
}

impl mqtt5_sub_options {
    /// The bit value of the option inside the options byte.
    pub open spec fn spec_byte(self) -> u8 {
        match self {
            mqtt5_sub_options::NoLocal => 4,
            mqtt5_sub_options::RetainAsPublished => 8,
            mqtt5_sub_options::SendRetainAlways => 0,
            mqtt5_sub_options::SendRetainNew => 16,
            mqtt5_sub_options::SendRetainNever => 32,
        }
    }

    /// Executable form of [`mqtt5_sub_options::spec_byte`].
    pub fn to_byte(self) -> (r: u8)
        ensures
            r == self.spec_byte(),
    {
        match self {
            mqtt5_sub_options::NoLocal => 4,
            mqtt5_sub_options::RetainAsPublished => 8,
            mqtt5_sub_options::SendRetainAlways => 0,
            mqtt5_sub_options::SendRetainNew => 16,
            mqtt5_sub_options::SendRetainNever => 32,
        }
    }
}

} // verus!
