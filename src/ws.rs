use vstd::prelude::*;

use crate::led_array::{encode_cells, Color, LedArray};
use crate::BroadcastMessage;

verus! {

/// What a sync session sends to its client.
#[derive(Clone)]
pub enum WsPayload {
    /// One cell changed.
    SyncOne { index: usize, color: Color },
    /// The whole canvas.
    SyncAll(Box<LedArray>),
}

/// The wire bytes of a payload: `[index, red, green, blue]` for one cell, with
/// the index cut to its low byte, and the flat canvas layout for the whole
/// canvas.
pub open spec fn payload_bytes(p: WsPayload) -> Seq<u8> {
    match p {
        WsPayload::SyncOne { index, color } => seq![
            index as u8,
            color.red,
            color.green,
            color.blue,
        ],
        WsPayload::SyncAll(a) => encode_cells(a@),
    }
}

impl WsPayload {
    /// The frame to put on the wire.
    pub fn into_bytes(self) -> (r: Vec<u8>)
        ensures
            r@ == payload_bytes(self),
    {
        match self {
            WsPayload::SyncOne { index, color } => {
                let v: Vec<u8> = vec![index as u8, color.red, color.green, color.blue];
                assert(v@ =~= payload_bytes(WsPayload::SyncOne { index, color }));
                v
            },
            WsPayload::SyncAll(a) => a.to_bytes(),
        }
    }
}

impl From<WsPayload> for Vec<u8> {
    fn from(p: WsPayload) -> (r: Vec<u8>)
        ensures
            r@ == payload_bytes(p),
    {
        p.into_bytes()
    }
}

impl vstd::std_specs::convert::FromSpecImpl<WsPayload> for Vec<u8> {
    open spec fn obeys_from_spec() -> bool {
        false
    }

    open spec fn from_spec(p: WsPayload) -> Vec<u8> {
        arbitrary()
    }
}

} // verus!
