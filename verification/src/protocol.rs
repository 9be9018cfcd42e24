//! What the ingestion service does with each frame that its one peer sends.
//!
//! The service reads frames in a loop. A close request is acknowledged and
//! ends the service for good; a liveness probe is answered with its own
//! payload; a text frame carries a sample to decode, and gets no answer
//! whether it decodes or not; a frame of any other kind goes back as it came.
use vstd::prelude::*;

verus! {

/// Status and reason that a close frame may carry.
#[derive(Debug, PartialEq, Eq)]
pub struct CloseData {
    /// Status code of the closure.
    pub status_code: u16,
    /// Reason phrase of the closure.
    pub reason: String,
}

/// One frame of the streaming protocol.
#[derive(Debug, PartialEq, Eq)]
pub enum Frame {
    /// Text data.
    Text(String),
    /// Binary data.
    Binary(Vec<u8>),
    /// Request to close the connection, or the acknowledgment of one.
    Close(Option<CloseData>),
    /// Liveness probe.
    Ping(Vec<u8>),
    /// Liveness reply.
    Pong(Vec<u8>),
}

/// What the service does after a frame.
#[derive(Debug, PartialEq, Eq)]
pub enum Outcome {
    /// Send the frame to the peer and read on.
    Reply(Frame),
    /// Send the frame to the peer and end the service: no further frame is
    /// read and no further connection accepted.
    Farewell(Frame),
    /// Decode the text as a sample; forward the sample if there is one, drop
    /// the text if there is none. Send nothing and read on.
    Decode(String),
}

/// A close frame's data as plain values.
pub struct CloseModel {
    pub status_code: u16,
    pub reason: Seq<char>,
}

/// A frame as plain values.
pub enum FrameModel {
    Text(Seq<char>),
    Binary(Seq<u8>),
    Close(Option<CloseModel>),
    Ping(Seq<u8>),
    Pong(Seq<u8>),
}

/// An outcome as plain values.
pub enum OutcomeModel {
    Reply(FrameModel),
    Farewell(FrameModel),
    Decode(Seq<char>),
}

impl View for CloseData {
    type V = CloseModel;

    open spec fn view(&self) -> CloseModel {
        CloseModel { status_code: self.status_code, reason: self.reason@ }
    }
}

impl View for Frame {
    type V = FrameModel;

    open spec fn view(&self) -> FrameModel {
        match self {
            Frame::Text(text) => FrameModel::Text(text@),
            Frame::Binary(payload) => FrameModel::Binary(payload@),
            Frame::Close(None) => FrameModel::Close(None),
            Frame::Close(Some(data)) => FrameModel::Close(Some(data@)),
            Frame::Ping(payload) => FrameModel::Ping(payload@),
            Frame::Pong(payload) => FrameModel::Pong(payload@),
        }
    }
}

impl View for Outcome {
    type V = OutcomeModel;

    open spec fn view(&self) -> OutcomeModel {
        match self {
            Outcome::Reply(frame) => OutcomeModel::Reply(frame@),
            Outcome::Farewell(frame) => OutcomeModel::Farewell(frame@),
            Outcome::Decode(text) => OutcomeModel::Decode(text@),
        }
    }
}

/// The outcome that a frame calls for.
pub open spec fn answer(frame: FrameModel) -> OutcomeModel {
    match frame {
        FrameModel::Close(_) => OutcomeModel::Farewell(FrameModel::Close(None)),
        FrameModel::Ping(payload) => OutcomeModel::Reply(FrameModel::Pong(payload)),
        FrameModel::Text(text) => OutcomeModel::Decode(text),
        _ => OutcomeModel::Reply(frame),
    }
}

/// Decides what to do with a frame from the peer.
pub fn respond(frame: Frame) -> (outcome: Outcome)
    ensures
        outcome@ == answer(frame@),
{
    match frame {
        Frame::Close(_) => Outcome::Farewell(Frame::Close(None)),
        Frame::Ping(payload) => Outcome::Reply(Frame::Pong(payload)),
        Frame::Text(text) => Outcome::Decode(text),
        other => Outcome::Reply(other),
    }
}

/// Only a close request ends the service, and its acknowledgment carries no
/// data.
pub proof fn lemma_only_close_ends(frame: FrameModel)
    ensures
        answer(frame) is Farewell <==> frame is Close,
        frame is Close ==> answer(frame) == OutcomeModel::Farewell(FrameModel::Close(None)),
{
}

/// A liveness probe is answered by a liveness reply with the probe's payload,
/// never by a text frame.
pub proof fn lemma_probe_echoed(payload: Seq<u8>)
    ensures
        answer(FrameModel::Ping(payload)) == OutcomeModel::Reply(FrameModel::Pong(payload)),
{
}

} // verus!
