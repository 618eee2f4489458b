//! What a connection decides.
//!
//! The transport's part (opening, reading and writing streams, closing the connection, waking
//! tasks) is the caller's; everything here tells what to do next, given what came of it.
use vstd::prelude::*;
use crate::config::{announced, effective, insert_all, local_settings, Config, Settings};
use crate::critical::{
    control_write_failure, critical_stream_failed, use_failure, write_failure, CriticalStream,
};
use crate::error::{
    detailed_error, frame_connection_error, internal_error, Code, Detail, ErrorOrigin,
    InternalConnectionError, StreamErrorIncoming,
};
use crate::frame::{fresh_decoder, poll_next_spec, BufRecvStream, FrameStream, FrameStreamError, Poll};
use crate::proto::frame::{frame_bytes, settings_bytes, summary_of, Frame, FrameView, PayloadLen};
use crate::proto::varint;
use crate::qpack::decoder::{Decoder, DecoderError};
use crate::qpack::shared::QpackEncoderView;
use crate::qpack::stream::DynamicTableSizeUpdate;
use crate::qpack_streams::{fresh_streams, QpackStreams, QpackView};
use crate::quic::MAX_VARINT;
use crate::shared_state::{failed, fresh_state, standing, SharedState};
use crate::stream::{
    control_header, control_header_bytes, type_spec, AcceptRecvStream, AcceptedRecvStream,
    PollTypeError, CONTROL, DECODER, ENCODER, PUSH, WEBTRANSPORT_UNI,
};

verus! {

/// What it means that the settings of this endpoint make no decoder.
///
/// That is not the peer's doing; see <https://www.rfc-editor.org/rfc/rfc9204.html#section-6>.
pub fn invalid_qpack_decoder_configuration(error: DecoderError) -> (internal: InternalConnectionError)
    ensures
        internal == detailed_error(
            Code::H3_INTERNAL_ERROR,
            "invalid QPACK decoder configuration: {}",
            Detail::Decoder(error),
        ),
{
    InternalConnectionError::with_detail(
        Code::H3_INTERNAL_ERROR,
        "invalid QPACK decoder configuration: {}",
        Detail::Decoder(error),
    )
}

/// Where the stream is that carries nothing and is sent so that peers learn to ignore it.
#[derive(Debug, Clone, Copy, PartialEq, Eq, Structural)]
pub enum GreaseStatus {
    /// The stream has not been opened.
    NotStarted,
    /// The stream is open.
    Started,
    /// The data was handed to the stream.
    DataPrepared,
    /// The data was sent.
    DataSent,
    /// The stream is finished.
    Finished,
}

/// What to do with the grease stream.
#[derive(Debug, PartialEq, Eq)]
pub enum GreaseAction {
    Open,
    /// Hand this data to the stream.
    Prepare(Vec<u8>),
    Flush,
    Finish,
    Nothing,
}

/// What came of it.
#[derive(Debug, Clone, Copy, PartialEq, Eq, Structural)]
pub enum GreaseEvent {
    Done,
    Pending,
    Failed,
}

/// What is to be done with the QPACK streams, in this order.
#[derive(Debug, Clone, Copy, PartialEq, Eq, Structural)]
pub struct QpackWork {
    pub flush_encoder: bool,
    pub read_decoder_stream: bool,
    /// With it goes what this endpoint's decoder has to say.
    pub read_encoder_stream: bool,
}

/// Streams that nobody has asked for yet.
pub struct AcceptedStreams {
    /// Those of sessions, each with the identifier of its session.
    pub wt_uni_streams: Vec<(u64, BufRecvStream)>,
}

/// The state of a connection. `W` is what wakes the task of a stream.
pub struct ConnectionInner<W> {
    pub shared: SharedState,
    pub config: Config,
    /// What is written first on the control stream.
    pub control_header: Vec<u8>,
    pub control_recv: Option<FrameStream>,
    pub qpack_streams: QpackStreams<W>,
    pub accepted_streams: AcceptedStreams,
    pub got_peer_settings: bool,
    pub send_grease_frame: bool,
    pub send_grease_stream_flag: bool,
    pub grease_step: GreaseStatus,
}

/// What the frames of a control stream mean for the connection, where they fail it.
///
/// See <https://www.rfc-editor.org/rfc/rfc9114.html#section-6.2.1> and
/// <https://www.rfc-editor.org/rfc/rfc9114.html#section-7.2>.
pub open spec fn control_failure(
    got_peer_settings: bool,
    next: Result<Option<FrameView<PayloadLen>>, FrameStreamError>,
) -> Option<ErrorOrigin> {
    match next {
        Err(FrameStreamError::Quic(error)) => Some(use_failure(CriticalStream::Control, error)),
        Err(FrameStreamError::UnexpectedEnd) => Some(
            ErrorOrigin::Internal(
                internal_error(Code::H3_FRAME_ERROR, "received incomplete frame"),
            ),
        ),
        Err(FrameStreamError::Proto(error)) => Some(
            ErrorOrigin::Internal(frame_connection_error(error)),
        ),
        Ok(None) => Some(
            ErrorOrigin::Internal(
                internal_error(Code::H3_CLOSED_CRITICAL_STREAM, "control stream was closed"),
            ),
        ),
        Ok(Some(FrameView::Settings(_))) => if got_peer_settings {
            Some(
                ErrorOrigin::Internal(
                    internal_error(Code::H3_FRAME_UNEXPECTED, "second settings frame received"),
                ),
            )
        } else {
            None
        },
        Ok(Some(frame)) => if !got_peer_settings {
            Some(
                ErrorOrigin::Internal(
                    detailed_error(
                        Code::H3_MISSING_SETTINGS,
                        "received frame {} before settings",
                        Detail::Frame(summary_of(frame)),
                    ),
                ),
            )
        } else if frame is Goaway || frame is CancelPush || frame is MaxPushId {
            None
        } else {
            Some(
                ErrorOrigin::Internal(
                    detailed_error(
                        Code::H3_FRAME_UNEXPECTED,
                        "received unexpected frame {} on control stream",
                        Detail::Frame(summary_of(frame)),
                    ),
                ),
            )
        },
    }
}

/// The capacity that the peer permits for the table of this endpoint's encoder.
///
/// One that is no number here is as good as none: it must not be cut down, since it is the
/// modulus of Required Insert Counts. See
/// <https://www.rfc-editor.org/rfc/rfc9204.html#section-4.5.1.1>.
pub open spec fn peer_capacity(settings: Settings) -> usize {
    match settings.qpack_max_table_capacity {
        Some(value) => if value <= usize::MAX {
            value as usize
        } else {
            0
        },
        None => 0,
    }
}

/// The capacity that this endpoint's encoder uses.
pub open spec fn used_capacity(config: Config, settings: Settings) -> usize {
    if config.qpack_encoder_table_capacity < peer_capacity(settings) {
        config.qpack_encoder_table_capacity
    } else {
        peer_capacity(settings)
    }
}

/// This endpoint's encoder when the peer's settings have arrived.
pub open spec fn configured_encoder(
    encoder: QpackEncoderView,
    config: Config,
    settings: Settings,
) -> QpackEncoderView {
    let capacity = used_capacity(config, settings);
    if capacity == 0 {
        encoder
    } else {
        QpackEncoderView {
            table: crate::qpack::dynamic::TableView {
                max_size: capacity,
                blocked_max: 1,
                ..encoder.table
            },
            max_table_capacity: peer_capacity(settings),
            pending: encoder.pending + DynamicTableSizeUpdate(capacity).encode_spec(),
            enabled: true,
        }
    }
}

/// The bytes of a grease stream: a type that is reserved, and a frame that is.
pub open spec fn grease_stream_bytes(n: u64) -> Seq<u8> {
    varint::encode_spec(crate::config::grease_id(n) as u64) + frame_bytes(FrameView::Grease(n))
}

/// What becomes of the grease stream.
pub open spec fn grease_after(
    step: GreaseStatus,
    flag: bool,
    event: GreaseEvent,
) -> (GreaseStatus, bool) {
    match event {
        GreaseEvent::Pending => (step, flag),
        GreaseEvent::Failed => (step, false),
        GreaseEvent::Done => match step {
            GreaseStatus::NotStarted => (GreaseStatus::Started, flag),
            GreaseStatus::Started => (GreaseStatus::DataPrepared, flag),
            GreaseStatus::DataPrepared => (GreaseStatus::DataSent, flag),
            _ => (GreaseStatus::Finished, false),
        },
    }
}

impl<W> ConnectionInner<W> {
    pub open spec fn wf(&self) -> bool {
        &&& self.qpack_streams.wf()
        &&& self.control_recv matches Some(frames) ==> frames.wf()
        &&& !self.got_peer_settings ==> self.qpack_streams@.encoder.table.max_size == 0
    }

    /// The state of a connection that is to be set up.
    pub fn new(config: Config) -> (result: Result<Self, ErrorOrigin>)
        ensures
            match insert_all(Seq::empty(), announced(config)) {
                Err(error) => result == Err::<Self, ErrorOrigin>(
                    ErrorOrigin::Internal(
                        detailed_error(
                            Code::H3_INTERNAL_ERROR,
                            "invalid local SETTINGS configuration: {}",
                            Detail::Settings(error),
                        ),
                    ),
                ),
                Ok(entries) => {
                    let capacity = match effective(entries).qpack_max_table_capacity {
                        Some(value) => value,
                        None => 0,
                    };
                    let blocked = match effective(entries).qpack_blocked_streams {
                        Some(value) => value,
                        None => 0,
                    };
                    if settings_bytes(entries).len() > MAX_VARINT {
                        result == Err::<Self, ErrorOrigin>(
                            ErrorOrigin::Internal(
                                internal_error(
                                    Code::H3_INTERNAL_ERROR,
                                    "invalid local SETTINGS configuration",
                                ),
                            ),
                        )
                    } else if capacity > usize::MAX {
                        result == Err::<Self, ErrorOrigin>(
                            ErrorOrigin::Internal(
                                detailed_error(
                                    Code::H3_INTERNAL_ERROR,
                                    "invalid QPACK decoder configuration: {}",
                                    Detail::Decoder(DecoderError::BufSize),
                                ),
                            ),
                        )
                    } else {
                        &&& result is Ok
                        &&& result->Ok_0.wf()
                        &&& result->Ok_0.shared == fresh_state()
                        &&& result->Ok_0.config == config
                        &&& result->Ok_0.control_header@ == control_header_bytes(entries)
                        &&& result->Ok_0.control_recv is None
                        &&& result->Ok_0.qpack_streams@ == fresh_streams::<W>(
                            crate::qpack::dynamic::empty_table(),
                            capacity as usize,
                            config.qpack_decode_buffer_size,
                            blocked,
                        )
                        &&& result->Ok_0.accepted_streams.wt_uni_streams@.len() == 0
                        &&& !result->Ok_0.got_peer_settings
                        &&& result->Ok_0.send_grease_frame == config.send_grease
                        &&& result->Ok_0.send_grease_stream_flag == config.send_grease
                        &&& result->Ok_0.grease_step == GreaseStatus::NotStarted
                    }
                },
            },
    {
        let settings = match local_settings(&config) {
            Ok(settings) => settings,
            Err(error) => return Err(
                ErrorOrigin::Internal(
                    InternalConnectionError::with_detail(
                        Code::H3_INTERNAL_ERROR,
                        "invalid local SETTINGS configuration: {}",
                        Detail::Settings(error),
                    ),
                ),
            ),
        };
        proof {
            crate::config::lemma_insert_all(Seq::empty(), announced(config));
        }
        let control_header = match control_header(&settings) {
            Some(header) => header,
            None => return Err(
                ErrorOrigin::Internal(
                    InternalConnectionError::new(
                        Code::H3_INTERNAL_ERROR,
                        "invalid local SETTINGS configuration",
                    ),
                ),
            ),
        };
        let advertised = Settings::from_wire(&settings);
        let capacity: u64 = match advertised.qpack_max_table_capacity {
            Some(value) => value,
            None => 0,
        };
        let blocked: u64 = match advertised.qpack_blocked_streams {
            Some(value) => value,
            None => 0,
        };
        let mut decoder = match Decoder::new(capacity, blocked) {
            Ok(decoder) => decoder,
            Err(error) => return Err(
                ErrorOrigin::Internal(invalid_qpack_decoder_configuration(error)),
            ),
        };
        decoder.set_max_encoded_string_size(config.qpack_decode_buffer_size);
        let send_grease: bool = config.send_grease;
        Ok(
            ConnectionInner {
                shared: SharedState::default(),
                config,
                control_header,
                control_recv: None,
                qpack_streams: QpackStreams::new(decoder),
                accepted_streams: AcceptedStreams { wt_uni_streams: Vec::new() },
                got_peer_settings: false,
                send_grease_frame: send_grease,
                send_grease_stream_flag: send_grease,
                grease_step: GreaseStatus::NotStarted,
            },
        )
    }

    /// Fails the connection, and gives the error that stands.
    pub fn handle_connection_error(&mut self, error: ErrorOrigin) -> (first: ErrorOrigin)
        ensures
            first == standing(old(self).shared, error),
            *final(self) == (ConnectionInner {
                shared: failed(old(self).shared, error),
                ..*old(self)
            }),
    {
        self.shared.set_conn_error(error)
    }

    /// Takes a stream that the peer opened; a stream of an unknown type is handed back, to be
    /// stopped with the code that comes with it.
    ///
    /// See <https://www.rfc-editor.org/rfc/rfc9114.html#section-6.2>.
    pub fn accept_recv(&mut self, stream: AcceptedRecvStream) -> (result: Result<
        Option<(BufRecvStream, Code)>,
        ErrorOrigin,
    >)
        requires
            old(self).wf(),
            stream.wf(),
        ensures
            final(self).wf(),
            taken(*old(self), *final(self), stream, result),
    {
        match stream {
            AcceptedRecvStream::Control(frames) => {
                if self.control_recv.is_some() {
                    return Err(self.reject_second("got two control streams"));
                }
                self.control_recv = Some(frames);
                Ok(None)
            },
            AcceptedRecvStream::Encoder(recv) => {
                let second: bool = self.qpack_streams.encoder_recv.is_some();
                self.qpack_streams.encoder_recv = Some(recv);
                if second {
                    return Err(self.reject_second("got two encoder streams"));
                }
                Ok(None)
            },
            AcceptedRecvStream::Decoder(recv) => {
                let second: bool = self.qpack_streams.decoder_recv.is_some();
                self.qpack_streams.decoder_recv = Some(recv);
                if second {
                    return Err(self.reject_second("got two decoder streams"));
                }
                Ok(None)
            },
            AcceptedRecvStream::WebTransportUni(id, recv) => {
                if self.config.settings.enable_webtransport {
                    self.accepted_streams.wt_uni_streams.push((id, recv));
                }
                Ok(None)
            },
            AcceptedRecvStream::Push(_) => Ok(None),
            AcceptedRecvStream::Unknown(recv) => Ok(
                Some((recv, Code::H3_STREAM_CREATION_ERROR)),
            ),
        }
    }

    /// Looks at a stream that the peer opened: once its type has arrived it is taken, and
    /// until then it is handed back. The peer may end a stream before it has a type.
    ///
    /// See <https://www.rfc-editor.org/rfc/rfc9114.html#section-6.2>.
    pub fn poll_accept_recv(&mut self, stream: AcceptRecvStream) -> (result: Result<
        Accepting,
        ErrorOrigin,
    >)
        requires
            old(self).wf(),
            stream.stream.buf.wf(),
            stream.ty is None,
        ensures
            final(self).wf(),
            match type_spec(stream.stream.buf.bytes()) {
                None => {
                    &&& *final(self) == *old(self)
                    &&& result == Ok::<Accepting, ErrorOrigin>(
                        if stream.stream.eos {
                            Accepting::Ended
                        } else {
                            Accepting::Pending(stream)
                        },
                    )
                },
                Some((ty, id, rest)) => exists|accepted: AcceptedRecvStream| #[trigger]
                    is_stream(accepted, ty, id, stream.stream, rest) && taken(
                        *old(self),
                        *final(self),
                        accepted,
                        accepting_result(result),
                    ) && !(result matches Ok(Accepting::Pending(_))) && !(result matches Ok(
                        Accepting::Ended,
                    )),
            },
    {
        let mut pending = stream;
        match pending.poll_type() {
            Err(PollTypeError::EndOfStream) => Ok(Accepting::Ended),
            Ok(Poll::Pending) => Ok(Accepting::Pending(pending)),
            Ok(Poll::Ready(())) => {
                let accepted = pending.into_stream();
                let ghost found = accepted;
                let result = match self.accept_recv(accepted) {
                    Err(error) => Err(error),
                    Ok(None) => Ok(Accepting::Taken),
                    Ok(Some((recv, code))) => Ok(Accepting::Stop(recv, code)),
                };
                proof {
                    if let Some((ty, id, rest)) = type_spec(stream.stream.buf.bytes()) {
                        assert(is_stream(found, ty, id, stream.stream, rest));
                    }
                }
                result
            },
        }
    }

    fn reject_second(&mut self, message: &'static str) -> (first: ErrorOrigin)
        ensures
            first == standing(
                old(self).shared,
                ErrorOrigin::Internal(internal_error(Code::H3_STREAM_CREATION_ERROR, message)),
            ),
            *final(self) == (ConnectionInner {
                shared: failed(
                    old(self).shared,
                    ErrorOrigin::Internal(internal_error(Code::H3_STREAM_CREATION_ERROR, message)),
                ),
                ..*old(self)
            }),
    {
        self.handle_connection_error(
            ErrorOrigin::Internal(
                InternalConnectionError::new(Code::H3_STREAM_CREATION_ERROR, message),
            ),
        )
    }

    /// Takes what was read from the control stream.
    ///
    /// Of a frame that is permitted it tells whether the driver has to run again, since there
    /// are encoder instructions to send.
    pub fn on_control(
        &mut self,
        next: Result<Option<Frame<PayloadLen>>, FrameStreamError>,
    ) -> (result: Result<(Frame<PayloadLen>, bool), ErrorOrigin>)
        requires
            old(self).wf(),
        ensures
            final(self).wf(),
            match control_failure(old(self).got_peer_settings, crate::frame::viewed(next)) {
                Some(error) => {
                    &&& result == Err::<(Frame<PayloadLen>, bool), ErrorOrigin>(
                        standing(old(self).shared, error),
                    )
                    &&& *final(self) == (ConnectionInner {
                        shared: failed(old(self).shared, error),
                        ..*old(self)
                    })
                },
                None => {
                    &&& next matches Ok(Some(frame))
                    &&& result is Ok
                    &&& result->Ok_0.0 == frame
                    &&& final(self).control_recv == old(self).control_recv
                    &&& controlled(*old(self), *final(self), frame, result->Ok_0.1)
                },
            },
    {
        match next {
            Err(FrameStreamError::Quic(error)) => Err(
                self.handle_connection_error(
                    critical_stream_failed(error, CriticalStream::Control),
                ),
            ),
            Err(FrameStreamError::UnexpectedEnd) => Err(
                self.handle_connection_error(
                    ErrorOrigin::Internal(
                        InternalConnectionError::new(
                            Code::H3_FRAME_ERROR,
                            "received incomplete frame",
                        ),
                    ),
                ),
            ),
            Err(FrameStreamError::Proto(error)) => Err(
                self.handle_connection_error(
                    ErrorOrigin::Internal(InternalConnectionError::got_frame_error(error)),
                ),
            ),
            Ok(None) => Err(
                self.handle_connection_error(
                    ErrorOrigin::Internal(
                        InternalConnectionError::new(
                            Code::H3_CLOSED_CRITICAL_STREAM,
                            "control stream was closed",
                        ),
                    ),
                ),
            ),
            Ok(Some(Frame::Settings(settings))) => {
                if self.got_peer_settings {
                    return Err(
                        self.handle_connection_error(
                            ErrorOrigin::Internal(
                                InternalConnectionError::new(
                                    Code::H3_FRAME_UNEXPECTED,
                                    "second settings frame received",
                                ),
                            ),
                        ),
                    );
                }
                let ghost before = self.qpack_streams@;
                let peer = Settings::from_wire(&settings);
                self.got_peer_settings = true;
                self.shared.set_settings(peer);
                let permitted: usize = match peer.qpack_max_table_capacity {
                    Some(value) => if value <= usize::MAX as u64 {
                        value as usize
                    } else {
                        0
                    },
                    None => 0,
                };
                let capacity: usize = if self.config.qpack_encoder_table_capacity < permitted {
                    self.config.qpack_encoder_table_capacity
                } else {
                    permitted
                };
                let _ = self.qpack_streams.encoder.configure(permitted, capacity);
                assert(self.qpack_streams@ =~= (QpackView {
                    encoder: configured_encoder(before.encoder, self.config, peer),
                    ..before
                }));
                Ok((Frame::Settings(settings), capacity != 0))
            },
            Ok(Some(frame)) => {
                if !self.got_peer_settings {
                    return Err(
                        self.handle_connection_error(
                            ErrorOrigin::Internal(
                                InternalConnectionError::with_detail(
                                    Code::H3_MISSING_SETTINGS,
                                    "received frame {} before settings",
                                    Detail::Frame(frame.summary()),
                                ),
                            ),
                        ),
                    );
                }
                let permitted: bool = match &frame {
                    Frame::Goaway(_) => true,
                    Frame::CancelPush(_) => true,
                    Frame::MaxPushId(_) => true,
                    _ => false,
                };
                if permitted {
                    Ok((frame, false))
                } else {
                    Err(
                        self.handle_connection_error(
                            ErrorOrigin::Internal(
                                InternalConnectionError::with_detail(
                                    Code::H3_FRAME_UNEXPECTED,
                                    "received unexpected frame {} on control stream",
                                    Detail::Frame(frame.summary()),
                                ),
                            ),
                        ),
                    )
                }
            },
        }
    }
}

/// What becomes of a stream that the peer opened.
pub enum Accepting {
    /// Its type has not arrived.
    Pending(AcceptRecvStream),
    Taken,
    /// It ended before its type.
    Ended,
    /// It is of no use here, and is to be stopped with this code.
    Stop(BufRecvStream, Code),
}

/// What was to be done with a stream that has a type.
pub open spec fn accepting_result(result: Result<Accepting, ErrorOrigin>) -> Result<
    Option<(BufRecvStream, Code)>,
    ErrorOrigin,
> {
    match result {
        Err(error) => Err(error),
        Ok(Accepting::Stop(recv, code)) => Ok(Some((recv, code))),
        Ok(_) => Ok(None),
    }
}

/// Whether a stream is of this type, where `stream` is what it was before its type was read,
/// and `rest` is what follows the type.
pub open spec fn is_stream(
    accepted: AcceptedRecvStream,
    ty: u64,
    id: Option<u64>,
    stream: BufRecvStream,
    rest: Seq<u8>,
) -> bool {
    let recv = match accepted {
        AcceptedRecvStream::Control(frames) => frames.stream,
        AcceptedRecvStream::Push(recv) => recv,
        AcceptedRecvStream::Encoder(recv) => recv,
        AcceptedRecvStream::Decoder(recv) => recv,
        AcceptedRecvStream::WebTransportUni(_, recv) => recv,
        AcceptedRecvStream::Unknown(recv) => recv,
    };
    &&& recv.buf.bytes() == rest
    &&& recv.eos == stream.eos
    &&& recv.id == stream.id
    &&& match accepted {
        AcceptedRecvStream::Control(frames) => {
            &&& ty == CONTROL
            &&& frames.decoder == fresh_decoder()
            &&& frames.remaining_data == 0
            &&& !frames.data_until_eos
        },
        AcceptedRecvStream::Push(_) => ty == PUSH,
        AcceptedRecvStream::Encoder(_) => ty == ENCODER,
        AcceptedRecvStream::Decoder(_) => ty == DECODER,
        AcceptedRecvStream::WebTransportUni(session, _) => ty == WEBTRANSPORT_UNI && id == Some(
            session,
        ),
        AcceptedRecvStream::Unknown(_) => ty != CONTROL && ty != PUSH && ty != ENCODER && ty
            != DECODER && ty != WEBTRANSPORT_UNI,
    }
}

/// Whether the connection has taken a stream, or has failed since there is one of its type
/// already.
///
/// See <https://www.rfc-editor.org/rfc/rfc9114.html#section-6.2.1> and
/// <https://www.rfc-editor.org/rfc/rfc9204.html#section-4.2>.
pub open spec fn taken<W>(
    before: ConnectionInner<W>,
    after: ConnectionInner<W>,
    stream: AcceptedRecvStream,
    result: Result<Option<(BufRecvStream, Code)>, ErrorOrigin>,
) -> bool {
    match stream {
        AcceptedRecvStream::Control(frames) => if before.control_recv is Some {
            second_stream(before, after, result, "got two control streams")
        } else {
            &&& result == Ok::<Option<(BufRecvStream, Code)>, ErrorOrigin>(None)
            &&& after == (ConnectionInner { control_recv: Some(frames), ..before })
        },
        AcceptedRecvStream::Encoder(recv) => {
            let with = ConnectionInner {
                qpack_streams: QpackStreams { encoder_recv: Some(recv), ..before.qpack_streams },
                ..before
            };
            if before.qpack_streams.encoder_recv is Some {
                second_stream(with, after, result, "got two encoder streams")
            } else {
                &&& result == Ok::<Option<(BufRecvStream, Code)>, ErrorOrigin>(None)
                &&& after == with
            }
        },
        AcceptedRecvStream::Decoder(recv) => {
            let with = ConnectionInner {
                qpack_streams: QpackStreams { decoder_recv: Some(recv), ..before.qpack_streams },
                ..before
            };
            if before.qpack_streams.decoder_recv is Some {
                second_stream(with, after, result, "got two decoder streams")
            } else {
                &&& result == Ok::<Option<(BufRecvStream, Code)>, ErrorOrigin>(None)
                &&& after == with
            }
        },
        AcceptedRecvStream::WebTransportUni(id, recv) => {
            &&& result == Ok::<Option<(BufRecvStream, Code)>, ErrorOrigin>(None)
            &&& after.accepted_streams.wt_uni_streams@ == if before.config.settings.enable_webtransport {
                before.accepted_streams.wt_uni_streams@.push((id, recv))
            } else {
                before.accepted_streams.wt_uni_streams@
            }
            &&& after == (ConnectionInner { accepted_streams: after.accepted_streams, ..before })
        },
        AcceptedRecvStream::Push(_) => {
            &&& result == Ok::<Option<(BufRecvStream, Code)>, ErrorOrigin>(None)
            &&& after == before
        },
        AcceptedRecvStream::Unknown(recv) => {
            &&& result == Ok::<Option<(BufRecvStream, Code)>, ErrorOrigin>(
                Some((recv, Code::H3_STREAM_CREATION_ERROR)),
            )
            &&& after == before
        },
    }
}

/// Whether a second stream of a type fails the connection.
///
/// See <https://www.rfc-editor.org/rfc/rfc9114.html#section-6.2.1>.
pub open spec fn second_stream<W>(
    before: ConnectionInner<W>,
    after: ConnectionInner<W>,
    result: Result<Option<(BufRecvStream, Code)>, ErrorOrigin>,
    message: &'static str,
) -> bool {
    let error = ErrorOrigin::Internal(internal_error(Code::H3_STREAM_CREATION_ERROR, message));
    &&& result == Err::<Option<(BufRecvStream, Code)>, ErrorOrigin>(standing(before.shared, error))
    &&& after == (ConnectionInner { shared: failed(before.shared, error), ..before })
}

/// What came of reading the control stream, as a step of its frame stream tells it.
pub open spec fn control_read(
    step: Result<Poll<Option<FrameView<PayloadLen>>>, FrameStreamError>,
) -> Option<Result<Option<FrameView<PayloadLen>>, FrameStreamError>> {
    match step {
        Ok(Poll::Pending) => None,
        Ok(Poll::Ready(frame)) => Some(Ok(frame)),
        Err(error) => Some(Err(error)),
    }
}

/// What it means that the peer goes away with an identifier greater than the one before.
pub open spec fn greater_goaway(recv_closing: Option<u64>, id: u64) -> ErrorOrigin {
    ErrorOrigin::Internal(
        detailed_error(
            Code::H3_ID_ERROR,
            "received a GoAway ({}) greater than the former one ({})",
            Detail::Numbers(id, recv_closing->Some_0),
        ),
    )
}

/// Whether an identifier of the peer's GOAWAY may follow another.
///
/// See <https://www.rfc-editor.org/rfc/rfc9114.html#section-5.2>.
pub open spec fn goaway_follows(previous: Option<u64>, id: u64) -> bool {
    match previous {
        Some(previous) => id <= previous,
        None => true,
    }
}

impl<W> ConnectionInner<W> {
    /// Reads the next frame of the control stream, once the peer has opened it.
    ///
    /// Where nothing is to be had, the caller reads from the transport and tries again.
    pub fn poll_control(&mut self) -> (result: Result<Poll<(Frame<PayloadLen>, bool)>, ErrorOrigin>)
        requires
            old(self).wf(),
        ensures
            final(self).wf(),
            match old(self).control_recv {
                None => {
                    &&& result == Ok::<Poll<(Frame<PayloadLen>, bool)>, ErrorOrigin>(Poll::Pending)
                    &&& *final(self) == *old(self)
                },
                Some(frames) => {
                    let (step, after) = poll_next_spec(frames@);
                    &&& final(self).control_recv is Some
                    &&& final(self).control_recv->Some_0@ == after
                    &&& match control_read(step) {
                        None => {
                            &&& result == Ok::<Poll<(Frame<PayloadLen>, bool)>, ErrorOrigin>(
                                Poll::Pending,
                            )
                            &&& *final(self) == (ConnectionInner {
                                control_recv: final(self).control_recv,
                                ..*old(self)
                            })
                        },
                        Some(next) => match control_failure(old(self).got_peer_settings, next) {
                            Some(error) => {
                                &&& result == Err::<Poll<(Frame<PayloadLen>, bool)>, ErrorOrigin>(
                                    standing(old(self).shared, error),
                                )
                                &&& *final(self) == (ConnectionInner {
                                    shared: failed(old(self).shared, error),
                                    control_recv: final(self).control_recv,
                                    ..*old(self)
                                })
                            },
                            None => {
                                &&& result matches Ok(Poll::Ready(told))
                                &&& next == Ok::<Option<FrameView<PayloadLen>>, FrameStreamError>(
                                    Some(told.0@),
                                )
                                &&& controlled(*old(self), *final(self), told.0, told.1)
                            },
                        },
                    }
                },
            },
    {
        let mut frames = match self.control_recv.take() {
            None => {
                return Ok(Poll::Pending);
            },
            Some(frames) => frames,
        };
        let step = frames.poll_next();
        self.control_recv = Some(frames);
        let told = match step {
            Ok(Poll::Pending) => return Ok(Poll::Pending),
            Ok(Poll::Ready(frame)) => self.on_control(Ok(frame)),
            Err(error) => self.on_control(Err(error)),
        };
        match told {
            Ok(told) => Ok(Poll::Ready(told)),
            Err(error) => Err(error),
        }
    }

    /// Notes that the peer goes away, with the identifier that it gave. Each one that it gives
    /// must be no greater than the one before.
    pub fn process_goaway(&mut self, recv_closing: &mut Option<u64>, id: u64) -> (result: Result<
        (),
        ErrorOrigin,
    >)
        requires
            old(self).wf(),
        ensures
            final(self).wf(),
            if goaway_follows(*old(recv_closing), id) {
                &&& result == Ok::<(), ErrorOrigin>(())
                &&& *final(recv_closing) == Some(id)
                &&& *final(self) == (ConnectionInner {
                    shared: SharedState { closing: true, ..old(self).shared },
                    ..*old(self)
                })
            } else {
                let error = greater_goaway(*old(recv_closing), id);
                &&& result == Err::<(), ErrorOrigin>(standing(old(self).shared, error))
                &&& *final(recv_closing) == *old(recv_closing)
                &&& *final(self) == (ConnectionInner {
                    shared: failed(old(self).shared, error),
                    ..*old(self)
                })
            },
    {
        if let Some(previous) = *recv_closing {
            if previous < id {
                return Err(
                    self.handle_connection_error(
                        ErrorOrigin::Internal(
                            InternalConnectionError::with_detail(
                                Code::H3_ID_ERROR,
                                "received a GoAway ({}) greater than the former one ({})",
                                Detail::Numbers(id, previous),
                            ),
                        ),
                    ),
                );
            }
        }
        *recv_closing = Some(id);
        self.shared.set_closing();
        Ok(())
    }

    /// Begins to go away: gives the frame that is to be written on the control stream, unless
    /// one with this identifier or a smaller one was sent.
    ///
    /// See <https://www.rfc-editor.org/rfc/rfc9114.html#section-3.3>.
    pub fn shutdown(&mut self, sent_closing: &mut Option<u64>, max_id: u64) -> (frame: Option<Vec<u8>>)
        requires
            old(self).wf(),
            max_id <= MAX_VARINT,
        ensures
            final(self).wf(),
            if *old(sent_closing) matches Some(sent) && sent <= max_id {
                &&& frame is None
                &&& *final(sent_closing) == *old(sent_closing)
                &&& *final(self) == *old(self)
            } else {
                &&& frame matches Some(bytes)
                &&& bytes@ == frame_bytes(FrameView::Goaway(max_id))
                &&& *final(sent_closing) == Some(max_id)
                &&& *final(self) == (ConnectionInner {
                    shared: SharedState { closing: true, ..old(self).shared },
                    ..*old(self)
                })
            },
    {
        if let Some(sent) = *sent_closing {
            if sent <= max_id {
                return None;
            }
        }
        *sent_closing = Some(max_id);
        self.shared.set_closing();
        let frame: Frame<Vec<u8>> = Frame::Goaway(max_id);
        let mut bytes: Vec<u8> = Vec::new();
        frame.encode_with_payload(&mut bytes);
        assert(bytes@ =~= frame_bytes(FrameView::Goaway(max_id)));
        Some(bytes)
    }

    /// Takes that a write on the control stream failed.
    pub fn control_write_failed(&mut self, error: StreamErrorIncoming) -> (first: ErrorOrigin)
        requires
            old(self).wf(),
        ensures
            final(self).wf(),
            first == standing(old(self).shared, write_failure(error)),
            *final(self) == (ConnectionInner {
                shared: failed(old(self).shared, write_failure(error)),
                ..*old(self)
            }),
    {
        self.handle_connection_error(control_write_failure(error))
    }

    /// What is to be done with the grease stream. `n` chooses the reserved type.
    ///
    /// See <https://www.rfc-editor.org/rfc/rfc9114.html#section-6.2.3>.
    pub fn grease_action(&self, n: u64) -> (action: GreaseAction)
        ensures
            if !self.send_grease_stream_flag {
                action is Nothing
            } else {
                match self.grease_step {
                    GreaseStatus::NotStarted => action is Open,
                    GreaseStatus::Started => action matches GreaseAction::Prepare(data) && data@
                        == grease_stream_bytes(n),
                    GreaseStatus::DataPrepared => action is Flush,
                    GreaseStatus::DataSent => action is Finish,
                    GreaseStatus::Finished => action is Nothing,
                }
            },
    {
        if !self.send_grease_stream_flag {
            return GreaseAction::Nothing;
        }
        match self.grease_step {
            GreaseStatus::NotStarted => GreaseAction::Open,
            GreaseStatus::Started => {
                let mut data: Vec<u8> = Vec::new();
                varint::encode(0x1f * (n % 0x1000_0000) + 0x21, &mut data);
                let frame: Frame<Vec<u8>> = Frame::Grease(n);
                frame.encode_with_payload(&mut data);
                assert(data@ =~= grease_stream_bytes(n));
                GreaseAction::Prepare(data)
            },
            GreaseStatus::DataPrepared => GreaseAction::Flush,
            GreaseStatus::DataSent => GreaseAction::Finish,
            GreaseStatus::Finished => GreaseAction::Nothing,
        }
    }

    /// Takes what came of it. A stream that failed is not tried again.
    pub fn poll_grease_stream(&mut self, event: GreaseEvent) -> (step: Poll<()>)
        requires
            old(self).wf(),
        ensures
            final(self).wf(),
            ({
                let (status, flag) = grease_after(
                    old(self).grease_step,
                    old(self).send_grease_stream_flag,
                    event,
                );
                &&& *final(self) == (ConnectionInner {
                    grease_step: status,
                    send_grease_stream_flag: flag,
                    ..*old(self)
                })
                &&& step == if flag {
                    Poll::<()>::Pending
                } else {
                    Poll::Ready(())
                }
            }),
    {
        match event {
            GreaseEvent::Pending => {},
            GreaseEvent::Failed => {
                self.send_grease_stream_flag = false;
            },
            GreaseEvent::Done => match self.grease_step {
                GreaseStatus::NotStarted => {
                    self.grease_step = GreaseStatus::Started;
                },
                GreaseStatus::Started => {
                    self.grease_step = GreaseStatus::DataPrepared;
                },
                GreaseStatus::DataPrepared => {
                    self.grease_step = GreaseStatus::DataSent;
                },
                _ => {
                    self.grease_step = GreaseStatus::Finished;
                    self.send_grease_stream_flag = false;
                },
            },
        }
        if self.send_grease_stream_flag {
            Poll::Pending
        } else {
            Poll::Ready(())
        }
    }

    /// Whether requests can be sent with a dynamic table.
    pub fn dynamic_qpack_encoder(&self) -> (dynamic: bool)
        ensures
            dynamic == (self.config.qpack_encoder_table_capacity != 0),
    {
        self.config.qpack_encoder_table_capacity != 0
    }

    /// Which of the QPACK streams there is something to be done with. They do not wait for
    /// each other.
    ///
    /// See <https://www.rfc-editor.org/rfc/rfc9204.html#section-4.2>.
    pub fn poll_qpack(&self) -> (work: QpackWork)
        ensures
            work == (QpackWork {
                flush_encoder: self.config.qpack_encoder_table_capacity != 0,
                read_decoder_stream: self.qpack_streams.decoder_recv is Some,
                read_encoder_stream: self.qpack_streams.encoder_recv is Some
                    || self.qpack_streams@.max_table_capacity > 0,
            }),
    {
        QpackWork {
            flush_encoder: self.dynamic_qpack_encoder(),
            read_decoder_stream: self.qpack_streams.decoder_recv.is_some(),
            read_encoder_stream: self.qpack_streams.encoder_recv.is_some()
                || self.dynamic_qpack_decoder(),
        }
    }

    /// Whether the peer may refer to the dynamic table.
    pub fn dynamic_qpack_decoder(&self) -> (dynamic: bool)
        ensures
            dynamic == (self.qpack_streams@.max_table_capacity > 0),
    {
        self.qpack_streams.decoder.dynamic_table_enabled()
    }
}

/// What a frame on the control stream that is permitted changes: only settings change
/// anything.
pub open spec fn controlled<W>(
    before: ConnectionInner<W>,
    after: ConnectionInner<W>,
    frame: Frame<PayloadLen>,
    wake: bool,
) -> bool {
    match frame {
        Frame::Settings(settings) => {
            let peer = effective(settings@);
            &&& wake == (used_capacity(before.config, peer) != 0)
            &&& after.shared == match before.shared.settings {
                Some(_) => before.shared,
                None => SharedState { settings: Some(peer), ..before.shared },
            }
            &&& after.qpack_streams@ == (QpackView {
                encoder: configured_encoder(
                    before.qpack_streams@.encoder,
                    before.config,
                    peer,
                ),
                ..before.qpack_streams@
            })
            &&& after == (ConnectionInner {
                got_peer_settings: true,
                shared: after.shared,
                control_recv: after.control_recv,
                qpack_streams: after.qpack_streams,
                ..before
            })
        },
        _ => !wake && after == (ConnectionInner { control_recv: after.control_recv, ..before }),
    }
}

/// The first frame of a control stream is settings, and there are none after: every other
/// frame before them, and every settings frame after them, fails the connection.
pub proof fn settings_come_first_and_once(frame: FrameView<PayloadLen>)
    ensures
        control_failure(false, Ok(Some(frame))) is None <==> frame is Settings,
        frame is Settings ==> control_failure(true, Ok(Some(frame))) is Some,
{
}

/// A grease stream that failed or finished is not taken up again.
pub proof fn grease_stream_ends(step: GreaseStatus, flag: bool, event: GreaseEvent)
    ensures
        grease_after(step, false, event).1 == false,
        event is Failed ==> grease_after(step, flag, event).1 == false,
        step is DataSent && event is Done ==> grease_after(step, flag, event) == (
            GreaseStatus::Finished,
            false,
        ),
{
}

} // verus!
