use crate::addr::SockAddr;
use crate::proxy::{IncomingProxyMessage, MessageView, OutgoingProxyMessage};
use vstd::prelude::*;

verus! {

/// An event delivered to the model loop.
#[derive(Debug)]
pub enum EventModel {
    NewTelnetConnection(),
    ProxyInput((SockAddr, IncomingProxyMessage)),
    ProxyServerCrashed(String),
    TelnetServerCrashed(String),
    Tick(),
    UserInput(Vec<u8>),
}

/// The mathematical content of an [`EventModel`].
pub ghost enum EventModelView {
    NewTelnetConnection,
    ProxyInput(SockAddr, MessageView),
    ProxyServerCrashed(Seq<char>),
    TelnetServerCrashed(Seq<char>),
    Tick,
    UserInput(Seq<u8>),
}

impl View for EventModel {
    type V = EventModelView;

    open spec fn view(&self) -> EventModelView {
        match self {
            EventModel::NewTelnetConnection() => EventModelView::NewTelnetConnection,
            EventModel::ProxyInput(p) => EventModelView::ProxyInput(p.0, p.1@),
            EventModel::ProxyServerCrashed(reason) => EventModelView::ProxyServerCrashed(reason@),
            EventModel::TelnetServerCrashed(reason) => EventModelView::TelnetServerCrashed(
                reason@,
            ),
            EventModel::Tick() => EventModelView::Tick,
            EventModel::UserInput(bytes) => EventModelView::UserInput(bytes@),
        }
    }
}

/// A byte blob destined for the current telnet client.
#[derive(Debug, PartialEq, Eq)]
pub enum EventTelnet {
    Write(Vec<u8>),
}

impl EventTelnet {
    /// The bytes the event carries.
    pub open spec fn bytes(&self) -> Seq<u8> {
        match self {
            EventTelnet::Write(blob) => blob@,
        }
    }
}

/// A datagram destined for a proxy address.
#[derive(Clone, Copy, Debug, PartialEq, Eq, Structural)]
pub enum EventProxy {
    Write(SockAddr, OutgoingProxyMessage),
}

} // verus!
