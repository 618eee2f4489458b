//! HTTP/3 frames.
//!
//! See <https://www.rfc-editor.org/rfc/rfc9114.html#section-7>.
use vstd::prelude::*;
use crate::buf::{put_slice, to_vec, Reader};
use crate::buf_list::BufList;
use crate::config::sent_value;
use crate::quic::MAX_VARINT;
use super::varint;

verus! {

#[derive(Debug, Clone, Copy, PartialEq, Eq, Structural)]
pub enum SettingsError {
    Malformed,
    Repeated(u64),
    InvalidSettingId(u64),
    InvalidSettingValue(u64, u64),
}

/// The settings of a frame.
#[derive(Debug, PartialEq, Eq)]
pub struct Settings {
    entries: Vec<(u64, u64)>,
}

impl View for Settings {
    type V = Seq<(u64, u64)>;

    closed spec fn view(&self) -> Seq<(u64, u64)> {
        self.entries@
    }
}

/// One setting more: none may come twice, and its number and value have to be
/// variable-length integers.
pub open spec fn insert_spec(entries: Seq<(u64, u64)>, id: u64, value: u64) -> Result<
    Seq<(u64, u64)>,
    SettingsError,
> {
    if id > MAX_VARINT {
        Err(SettingsError::InvalidSettingId(id))
    } else if value > MAX_VARINT {
        Err(SettingsError::InvalidSettingValue(id, value))
    } else if sent_value(entries, id) is Some {
        Err(SettingsError::Repeated(id))
    } else {
        Ok(entries.push((id, value)))
    }
}

/// Whether a setting of HTTP/2 has this number, which is not to be used.
///
/// See <https://www.rfc-editor.org/rfc/rfc9114.html#section-7.2.4.1>.
pub open spec fn is_forbidden_setting(id: u64) -> bool {
    2 <= id <= 5
}

/// Whether a setting has a meaning here.
pub open spec fn is_supported_setting(id: u64) -> bool {
    ||| id == 0x1
    ||| id == 0x6
    ||| id == 0x7
    ||| id == 0x8
    ||| id == 0x33
    ||| id == 0x2b60_3742
    ||| id == 0x2b60_3743
}

/// The settings of a payload, after others. Those without a meaning here are ignored.
pub open spec fn settings_spec(entries: Seq<(u64, u64)>, s: Seq<u8>) -> Result<
    Seq<(u64, u64)>,
    SettingsError,
>
    decreases s.len(),
{
    if s.len() == 0 {
        Ok(entries)
    } else {
        match varint::decode_spec(s) {
            None => Err(SettingsError::Malformed),
            Some((id, rest)) => match varint::decode_spec(rest) {
                None => Err(SettingsError::Malformed),
                Some((value, rest)) => if is_forbidden_setting(id) {
                    Err(SettingsError::InvalidSettingId(id))
                } else if !is_supported_setting(id) {
                    if rest.len() < s.len() {
                        settings_spec(entries, rest)
                    } else {
                        Ok(entries)
                    }
                } else {
                    match insert_spec(entries, id, value) {
                        Err(error) => Err(error),
                        Ok(entries) => if rest.len() < s.len() {
                            settings_spec(entries, rest)
                        } else {
                            Ok(entries)
                        },
                    }
                },
            },
        }
    }
}

/// The payload of settings.
pub open spec fn settings_bytes(entries: Seq<(u64, u64)>) -> Seq<u8>
    decreases entries.len(),
{
    if entries.len() == 0 {
        Seq::empty()
    } else {
        varint::encode_spec(entries[0].0) + varint::encode_spec(entries[0].1) + settings_bytes(
            entries.skip(1),
        )
    }
}

/// Whether the settings are in the range of variable-length integers.
pub open spec fn settings_in_range(entries: Seq<(u64, u64)>) -> bool {
    forall|i: int|
        0 <= i < entries.len() ==> (#[trigger] entries[i]).0 <= MAX_VARINT && entries[i].1
            <= MAX_VARINT
}

impl Default for Settings {
    fn default() -> (settings: Self)
        ensures
            settings@ == Seq::<(u64, u64)>::empty(),
    {
        Settings { entries: Vec::new() }
    }
}

impl Settings {
    /// The value of a setting.
    pub fn get(&self, id: u64) -> (value: Option<u64>)
        ensures
            value == sent_value(self@, id),
    {
        let mut i: usize = self.entries.len();
        assert(self.entries@.take(i as int) =~= self.entries@);
        while i > 0
            invariant
                i <= self.entries@.len(),
                sent_value(self.entries@, id) == sent_value(self.entries@.take(i as int), id),
            decreases i,
        {
            proof {
                assert(self.entries@.take(i as int).drop_last() =~= self.entries@.take(i - 1));
            }
            if self.entries[i - 1].0 == id {
                return Some(self.entries[i - 1].1);
            }
            i = i - 1;
        }
        None
    }

    /// Adds a setting.
    pub fn insert(&mut self, id: u64, value: u64) -> (result: Result<(), SettingsError>)
        ensures
            match insert_spec(old(self)@, id, value) {
                Ok(entries) => result == Ok::<(), SettingsError>(()) && final(self)@ == entries,
                Err(error) => result == Err::<(), SettingsError>(error) && final(self)@ == old(self)@,
            },
    {
        if id > MAX_VARINT {
            return Err(SettingsError::InvalidSettingId(id));
        }
        if value > MAX_VARINT {
            return Err(SettingsError::InvalidSettingValue(id, value));
        }
        if self.get(id).is_some() {
            return Err(SettingsError::Repeated(id));
        }
        self.entries.push((id, value));
        Ok(())
    }

    /// Reads the settings of a payload.
    pub fn decode(payload: &[u8]) -> (result: Result<Settings, SettingsError>)
        ensures
            match settings_spec(Seq::empty(), payload@) {
                Ok(entries) => result is Ok && result->Ok_0@ == entries,
                Err(error) => result == Err::<Settings, SettingsError>(error),
            },
    {
        let mut settings = Settings::default();
        let mut buf = Reader::new(payload);
        let ghost goal = settings_spec(Seq::empty(), payload@);
        while buf.has_remaining()
            invariant
                goal == settings_spec(settings@, buf@),
                goal == settings_spec(Seq::empty(), payload@),
            decreases buf@.len(),
        {
            proof {
                varint::lemma_consumes(buf@);
                if let Some((_, rest)) = varint::decode_spec(buf@) {
                    varint::lemma_consumes(rest);
                }
            }
            let id: u64 = match varint::decode(&mut buf) {
                Some(id) => id,
                None => return Err(SettingsError::Malformed),
            };
            let value: u64 = match varint::decode(&mut buf) {
                Some(value) => value,
                None => return Err(SettingsError::Malformed),
            };
            if 2 <= id && id <= 5 {
                return Err(SettingsError::InvalidSettingId(id));
            }
            let supported: bool = id == 0x1 || id == 0x6 || id == 0x7 || id == 0x8 || id == 0x33
                || id == 0x2b60_3742 || id == 0x2b60_3743;
            if supported {
                if let Err(error) = settings.insert(id, value) {
                    return Err(error);
                }
            }
        }
        Ok(settings)
    }

    /// Writes the payload of the settings.
    pub fn encode(&self, buf: &mut Vec<u8>)
        requires
            settings_in_range(self@),
        ensures
            final(buf)@ == old(buf)@ + settings_bytes(self@),
    {
        let mut i: usize = 0;
        let ghost goal = buf@ + settings_bytes(self@);
        assert(self@.skip(0) =~= self@);
        while i < self.entries.len()
            invariant
                i <= self@.len(),
                self@ == self.entries@,
                settings_in_range(self@),
                buf@ + settings_bytes(self@.skip(i as int)) == goal,
            decreases self@.len() - i,
        {
            let ghost before = buf@;
            let ghost rest = self@.skip(i as int);
            assert(rest[0] == self@[i as int]);
            assert(rest.skip(1) =~= self@.skip(i + 1));
            varint::encode(self.entries[i].0, buf);
            varint::encode(self.entries[i].1, buf);
            i = i + 1;
            assert(buf@ + settings_bytes(self@.skip(i as int)) =~= before + settings_bytes(rest));
        }
        assert(buf@ + settings_bytes(self@.skip(i as int)) =~= buf@);
    }
}

/// The settings that have a meaning here.
pub open spec fn meant(entries: Seq<(u64, u64)>) -> Seq<(u64, u64)>
    decreases entries.len(),
{
    if entries.len() == 0 {
        Seq::empty()
    } else if is_supported_setting(entries[0].0) {
        seq![entries[0]] + meant(entries.skip(1))
    } else {
        meant(entries.skip(1))
    }
}

/// Whether a peer takes the settings: their numbers and values can be written, none is one of
/// HTTP/2, and none comes twice.
pub open spec fn acceptable_settings(entries: Seq<(u64, u64)>) -> bool {
    &&& settings_in_range(entries)
    &&& forall|i: int| 0 <= i < entries.len() ==> !is_forbidden_setting((#[trigger] entries[i]).0)
    &&& forall|i: int, j: int|
        0 <= i < j < entries.len() ==> (#[trigger] entries[i]).0 != (#[trigger] entries[j]).0
}

/// Reading back settings that were written gives those that have a meaning.
pub proof fn settings_round_trip(entries: Seq<(u64, u64)>)
    requires
        acceptable_settings(entries),
    ensures
        settings_spec(Seq::empty(), settings_bytes(entries)) == Ok::<
            Seq<(u64, u64)>,
            SettingsError,
        >(meant(entries)),
{
    lemma_settings_read(Seq::empty(), entries);
    assert(Seq::<(u64, u64)>::empty() + meant(entries) =~= meant(entries));
}

proof fn lemma_settings_read(before: Seq<(u64, u64)>, entries: Seq<(u64, u64)>)
    requires
        acceptable_settings(entries),
        forall|i: int|
            0 <= i < entries.len() ==> sent_value(before, (#[trigger] entries[i]).0) is None,
    ensures
        settings_spec(before, settings_bytes(entries)) == Ok::<Seq<(u64, u64)>, SettingsError>(
            before + meant(entries),
        ),
    decreases entries.len(),
{
    if entries.len() == 0 {
        assert(before + meant(entries) =~= before);
    } else {
        let (id, value) = entries[0];
        let rest = entries.skip(1);
        let tail = settings_bytes(rest);
        let middle = varint::encode_spec(value) + tail;
        assert(settings_bytes(entries) =~= varint::encode_spec(id) + middle);
        varint::round_trip(id, middle);
        varint::round_trip(value, tail);
        assert(!is_forbidden_setting(entries[0].0));
        assert(acceptable_settings(rest)) by {
            assert forall|i: int| 0 <= i < rest.len() implies (#[trigger] rest[i]).0 <= MAX_VARINT
                && rest[i].1 <= MAX_VARINT && !is_forbidden_setting(rest[i].0) by {
                assert(rest[i] == entries[i + 1]);
            }
            assert forall|i: int, j: int| 0 <= i < j < rest.len() implies (#[trigger] rest[i]).0
                != (#[trigger] rest[j]).0 by {
                assert(rest[i] == entries[i + 1]);
                assert(rest[j] == entries[j + 1]);
            }
        }
        let next = if is_supported_setting(id) {
            before.push((id, value))
        } else {
            before
        };
        assert forall|i: int| 0 <= i < rest.len() implies sent_value(next, (#[trigger] rest[i]).0)
            is None by {
            assert(rest[i] == entries[i + 1]);
            assert(entries[0].0 != entries[i + 1].0);
            assert(before.push((id, value)).drop_last() =~= before);
        }
        lemma_settings_read(next, rest);
        assert(sent_value(before, entries[0].0) is None);
        assert(before + meant(entries) =~= next + meant(rest));
    }
}

/// The types of frames.
///
/// See <https://www.rfc-editor.org/rfc/rfc9114.html#section-11.2.1>.
pub const DATA: u64 = 0x0;

pub const HEADERS: u64 = 0x1;

pub const CANCEL_PUSH: u64 = 0x3;

pub const SETTINGS: u64 = 0x4;

pub const PUSH_PROMISE: u64 = 0x5;

pub const GOAWAY: u64 = 0x7;

pub const MAX_PUSH_ID: u64 = 0xd;

pub const WEBTRANSPORT_BI_STREAM: u64 = 0x41;

/// Whether HTTP/2 has a frame of this type that HTTP/3 forbids.
///
/// See <https://www.rfc-editor.org/rfc/rfc9114.html#section-7.2.8>.
pub open spec fn is_forbidden(ty: u64) -> bool {
    ty == 0x2 || ty == 0x6 || ty == 0x8 || ty == 0x9
}

/// Whether frames of this type have a meaning here.
pub open spec fn is_known(ty: u64) -> bool {
    ||| ty == DATA
    ||| ty == HEADERS
    ||| ty == CANCEL_PUSH
    ||| ty == SETTINGS
    ||| ty == PUSH_PROMISE
    ||| ty == GOAWAY
    ||| ty == MAX_PUSH_ID
    ||| ty == WEBTRANSPORT_BI_STREAM
}

fn forbidden(ty: u64) -> (yes: bool)
    ensures
        yes == is_forbidden(ty),
{
    ty == 0x2 || ty == 0x6 || ty == 0x8 || ty == 0x9
}

fn known(ty: u64) -> (yes: bool)
    ensures
        yes == is_known(ty),
{
    ty == DATA || ty == HEADERS || ty == CANCEL_PUSH || ty == SETTINGS || ty == PUSH_PROMISE || ty
        == GOAWAY || ty == MAX_PUSH_ID || ty == WEBTRANSPORT_BI_STREAM
}

#[derive(Debug, Clone, Copy, PartialEq, Eq, Structural)]
pub enum FrameError {
    Malformed,
    UnsupportedFrame(u64),
    UnknownFrame(u64),
    InvalidFrameValue,
    /// At least so many bytes are needed.
    Incomplete(usize),
    Settings(SettingsError),
    InvalidStreamId(u64),
    InvalidPushId(u64),
    ExcessiveLoad { len: u64, limit: usize },
}

/// The length of a payload.
#[derive(Debug, Clone, Copy, PartialEq, Eq, Structural)]
pub struct PayloadLen(pub usize);

#[derive(Debug, PartialEq, Eq)]
pub struct PushPromise {
    pub id: u64,
    pub encoded: Vec<u8>,
}

/// A frame, with `B` for the payload of a DATA frame.
#[derive(Debug, PartialEq, Eq)]
pub enum Frame<B> {
    Data(B),
    Headers(Vec<u8>),
    CancelPush(u64),
    Settings(Settings),
    PushPromise(PushPromise),
    Goaway(u64),
    MaxPushId(u64),
    /// A stream that carries no frames from here on.
    WebTransportStream(u64),
    /// A frame of a reserved type, with which one.
    Grease(u64),
}

/// A frame without its payload.
#[derive(Debug, Clone, Copy, PartialEq, Eq, Structural)]
pub enum FrameSummary {
    Data,
    Headers,
    CancelPush(u64),
    Settings,
    PushPromise(u64),
    Goaway(u64),
    MaxPushId(u64),
    WebTransportStream(u64),
    Grease(u64),
}

/// What a frame is, without its payload.
pub open spec fn summary_of<B>(frame: FrameView<B>) -> FrameSummary {
    match frame {
        FrameView::Data(_) => FrameSummary::Data,
        FrameView::Headers(_) => FrameSummary::Headers,
        FrameView::CancelPush(id) => FrameSummary::CancelPush(id),
        FrameView::Settings(_) => FrameSummary::Settings,
        FrameView::PushPromise(id, _) => FrameSummary::PushPromise(id),
        FrameView::Goaway(id) => FrameSummary::Goaway(id),
        FrameView::MaxPushId(id) => FrameSummary::MaxPushId(id),
        FrameView::WebTransportStream(id) => FrameSummary::WebTransportStream(id),
        FrameView::Grease(n) => FrameSummary::Grease(n),
    }
}

impl<B> Frame<B> {
    /// What the frame is, without its payload.
    pub fn summary(&self) -> (summary: FrameSummary)
        ensures
            summary == summary_of(self@),
    {
        match self {
            Frame::Data(_) => FrameSummary::Data,
            Frame::Headers(_) => FrameSummary::Headers,
            Frame::CancelPush(id) => FrameSummary::CancelPush(*id),
            Frame::Settings(_) => FrameSummary::Settings,
            Frame::PushPromise(promise) => FrameSummary::PushPromise(promise.id),
            Frame::Goaway(id) => FrameSummary::Goaway(*id),
            Frame::MaxPushId(id) => FrameSummary::MaxPushId(*id),
            Frame::WebTransportStream(id) => FrameSummary::WebTransportStream(*id),
            Frame::Grease(n) => FrameSummary::Grease(*n),
        }
    }
}

/// What a frame says.
pub enum FrameView<B> {
    Data(B),
    Headers(Seq<u8>),
    CancelPush(u64),
    Settings(Seq<(u64, u64)>),
    PushPromise(u64, Seq<u8>),
    Goaway(u64),
    MaxPushId(u64),
    WebTransportStream(u64),
    Grease(u64),
}

impl<B> View for Frame<B> {
    type V = FrameView<B>;

    open spec fn view(&self) -> FrameView<B> {
        match *self {
            Frame::Data(data) => FrameView::Data(data),
            Frame::Headers(encoded) => FrameView::Headers(encoded@),
            Frame::CancelPush(id) => FrameView::CancelPush(id),
            Frame::Settings(settings) => FrameView::Settings(settings@),
            Frame::PushPromise(promise) => FrameView::PushPromise(promise.id, promise.encoded@),
            Frame::Goaway(id) => FrameView::Goaway(id),
            Frame::MaxPushId(id) => FrameView::MaxPushId(id),
            Frame::WebTransportStream(id) => FrameView::WebTransportStream(id),
            Frame::Grease(n) => FrameView::Grease(n),
        }
    }
}

/// The type and the length at the front of a frame, and what follows them.
pub open spec fn prefix_spec(s: Seq<u8>) -> Option<(u64, u64, Seq<u8>)> {
    match varint::decode_spec(s) {
        None => None,
        Some((ty, rest)) => match varint::decode_spec(rest) {
            None => None,
            Some((len, rest)) => Some((ty, len, rest)),
        },
    }
}

/// The value that a payload consists of.
pub open spec fn single_value(payload: Seq<u8>) -> Result<u64, FrameError> {
    match varint::decode_spec(payload) {
        Some((value, rest)) => if rest.len() == 0 {
            Ok(value)
        } else {
            Err(FrameError::Malformed)
        },
        None => Err(FrameError::Malformed),
    }
}

/// The frame with this type and this payload.
pub open spec fn payload_spec(ty: u64, payload: Seq<u8>) -> Result<
    FrameView<PayloadLen>,
    FrameError,
> {
    if ty == HEADERS {
        Ok(FrameView::Headers(payload))
    } else if ty == SETTINGS {
        match settings_spec(Seq::empty(), payload) {
            Ok(entries) => Ok(FrameView::Settings(entries)),
            Err(error) => Err(FrameError::Settings(error)),
        }
    } else if ty == CANCEL_PUSH {
        match single_value(payload) {
            Ok(id) => Ok(FrameView::CancelPush(id)),
            Err(error) => Err(error),
        }
    } else if ty == PUSH_PROMISE {
        match varint::decode_spec(payload) {
            Some((id, encoded)) => Ok(FrameView::PushPromise(id, encoded)),
            None => Err(FrameError::Malformed),
        }
    } else if ty == GOAWAY {
        match single_value(payload) {
            Ok(id) => Ok(FrameView::Goaway(id)),
            Err(error) => Err(error),
        }
    } else if ty == MAX_PUSH_ID {
        match single_value(payload) {
            Ok(id) => Ok(FrameView::MaxPushId(id)),
            Err(error) => Err(error),
        }
    } else {
        Err(FrameError::UnknownFrame(ty))
    }
}

/// What is short of a frame of which the type or the length has not arrived.
pub open spec fn incomplete<T>(s: Seq<u8>) -> Result<T, FrameError> {
    Err(FrameError::Incomplete((s.len() + 1) as usize))
}

/// The frame at the front of `s`, and what follows it. A field section may have `max`
/// bytes; the payload of a DATA frame is left where it is.
pub open spec fn frame_spec(s: Seq<u8>, max: usize) -> Result<
    (FrameView<PayloadLen>, Seq<u8>),
    FrameError,
> {
    match varint::decode_spec(s) {
        None => incomplete(s),
        Some((ty, rest)) => if is_forbidden(ty) {
            Err(FrameError::UnsupportedFrame(ty))
        } else {
            match varint::decode_spec(rest) {
                None => incomplete(s),
                Some((len, rest)) => if ty == WEBTRANSPORT_BI_STREAM {
                    Ok((FrameView::WebTransportStream(len), rest))
                } else if ty == DATA {
                    if len > usize::MAX {
                        Err(FrameError::ExcessiveLoad { len, limit: usize::MAX })
                    } else {
                        Ok((FrameView::Data(PayloadLen(len as usize)), rest))
                    }
                } else if ty == HEADERS && len > max {
                    Err(FrameError::ExcessiveLoad { len, limit: max })
                } else if s.len() - rest.len() + len > usize::MAX {
                    Err(FrameError::ExcessiveLoad { len, limit: usize::MAX })
                } else if rest.len() < len {
                    Err(FrameError::Incomplete((s.len() - rest.len() + len) as usize))
                } else {
                    match payload_spec(ty, rest.take(len as int)) {
                        Ok(frame) => Ok((frame, rest.skip(len as int))),
                        Err(error) => Err(error),
                    }
                },
            }
        },
    }
}

/// The type, length and what follows, of a frame that has no meaning here.
pub open spec fn unknown_prefix_spec(s: Seq<u8>) -> Result<
    Option<(u64, u64, Seq<u8>)>,
    FrameError,
> {
    match varint::decode_spec(s) {
        None => incomplete(s),
        Some((ty, rest)) => if is_forbidden(ty) {
            Err(FrameError::UnsupportedFrame(ty))
        } else if is_known(ty) {
            Ok(None)
        } else {
            match varint::decode_spec(rest) {
                None => incomplete(s),
                Some((len, rest)) => Ok(Some((ty, len, rest))),
            }
        },
    }
}

/// The type, length and what follows, of a frame whose payload is read as it comes.
pub open spec fn payload_prefix_spec(s: Seq<u8>) -> Result<
    Option<(u64, usize, Seq<u8>)>,
    FrameError,
> {
    match varint::decode_spec(s) {
        None => incomplete(s),
        Some((ty, rest)) => if ty != DATA && ty != HEADERS {
            Ok(None)
        } else {
            match varint::decode_spec(rest) {
                None => incomplete(s),
                Some((len, rest)) => if len > usize::MAX {
                    Err(FrameError::ExcessiveLoad { len, limit: usize::MAX })
                } else {
                    Ok(Some((ty, len as usize, rest)))
                },
            }
        },
    }
}

/// What of the front of a frame has arrived.
struct Prefix {
    ty: Option<u64>,
    /// The length, and how many bytes it takes to spell it and the type.
    len: Option<(u64, usize)>,
    /// How many bytes are short of the type and the length, at least.
    missing: usize,
}

/// Reads the type and the length at the front of a frame.
fn read_prefix(src: &BufList) -> (prefix: Prefix)
    requires
        src.wf(),
    ensures
        match varint::decode_spec(src.bytes()) {
            None => prefix.ty is None,
            Some((ty, rest)) => prefix.ty == Some(ty),
        },
        match prefix_spec(src.bytes()) {
            None => prefix.len is None && prefix.missing == src.bytes().len() + 1,
            Some((ty, len, rest)) => prefix.len == Some((len, (src.bytes().len() - rest.len()) as usize))
                && src.bytes().len() - rest.len() <= 16 && rest == src.bytes().skip(
                src.bytes().len() - rest.len(),
            ),
        },
{
    let front = src.copy(0, 16);
    let ghost s = src.bytes();
    let ghost more = if s.len() < 16 {
        Seq::<u8>::empty()
    } else {
        s.skip(16)
    };
    proof {
        assert(s.skip(0) =~= s);
        assert(front@ + more =~= s);
        varint::lemma_extends(front@, more);
        varint::lemma_consumes(front@);
        if let Some((ty, rest)) = varint::decode_spec(front@) {
            varint::lemma_extends(rest, more);
            varint::lemma_consumes(rest);
            let n = varint::varint_len(front@[0]) as int;
            assert(rest == front@.skip(n));
            assert(n <= 8);
            if let Some((len, after)) = varint::decode_spec(rest) {
                let m = varint::varint_len(rest[0]) as int;
                assert(after =~= front@.skip(n + m));
                assert(after + more =~= s.skip(n + m));
            }
        }
    }
    let mut buf = Reader::new(front.as_slice());
    let ty = varint::decode(&mut buf);
    let len: Option<(u64, usize)> = match ty {
        None => None,
        Some(_) => match varint::decode(&mut buf) {
            None => None,
            Some(len) => Some((len, front.len() - buf.remaining())),
        },
    };
    let missing: usize = front.len() + 1;
    Prefix { ty, len, missing }
}

/// Reads the value that a payload consists of.
fn read_single(payload: &[u8]) -> (result: Result<u64, FrameError>)
    ensures
        result == single_value(payload@),
{
    let mut buf = Reader::new(payload);
    match varint::decode(&mut buf) {
        None => Err(FrameError::Malformed),
        Some(value) => if buf.has_remaining() {
            Err(FrameError::Malformed)
        } else {
            Ok(value)
        },
    }
}

/// Reads the payload of a frame.
fn read_payload(ty: u64, payload: Vec<u8>) -> (result: Result<Frame<PayloadLen>, FrameError>)
    ensures
        crate::buf::view_ok(result) == payload_spec(ty, payload@),
{
    if ty == HEADERS {
        Ok(Frame::Headers(payload))
    } else if ty == SETTINGS {
        match Settings::decode(payload.as_slice()) {
            Ok(settings) => Ok(Frame::Settings(settings)),
            Err(error) => Err(FrameError::Settings(error)),
        }
    } else if ty == CANCEL_PUSH {
        match read_single(payload.as_slice()) {
            Ok(id) => Ok(Frame::CancelPush(id)),
            Err(error) => Err(error),
        }
    } else if ty == PUSH_PROMISE {
        let mut buf = Reader::new(payload.as_slice());
        match varint::decode(&mut buf) {
            Some(id) => Ok(Frame::PushPromise(PushPromise { id, encoded: to_vec(buf.chunk()) })),
            None => Err(FrameError::Malformed),
        }
    } else if ty == GOAWAY {
        match read_single(payload.as_slice()) {
            Ok(id) => Ok(Frame::Goaway(id)),
            Err(error) => Err(error),
        }
    } else if ty == MAX_PUSH_ID {
        match read_single(payload.as_slice()) {
            Ok(id) => Ok(Frame::MaxPushId(id)),
            Err(error) => Err(error),
        }
    } else {
        Err(FrameError::UnknownFrame(ty))
    }
}

impl Frame<PayloadLen> {
    /// Reads the frame at the front, and tells how many bytes it takes. They are left
    /// where they are.
    pub fn decode_with_max_field_section_size(src: &BufList, max: usize) -> (result: Result<
        (Frame<PayloadLen>, usize),
        FrameError,
    >)
        requires
            src.wf(),
        ensures
            match frame_spec(src.bytes(), max) {
                Ok((frame, rest)) => result is Ok && result->Ok_0.0@ == frame && result->Ok_0.1
                    <= src.bytes().len() && src.bytes().skip(result->Ok_0.1 as int) == rest,
                Err(error) => result == Err::<(Frame<PayloadLen>, usize), FrameError>(error),
            },
    {
        let prefix = read_prefix(src);
        let ty: u64 = match prefix.ty {
            None => return Err(FrameError::Incomplete(prefix.missing)),
            Some(ty) => ty,
        };
        if forbidden(ty) {
            return Err(FrameError::UnsupportedFrame(ty));
        }
        let (len, consumed): (u64, usize) = match prefix.len {
            None => return Err(FrameError::Incomplete(prefix.missing)),
            Some(found) => found,
        };
        if ty == WEBTRANSPORT_BI_STREAM {
            return Ok((Frame::WebTransportStream(len), consumed));
        }
        if ty == DATA {
            if len > usize::MAX as u64 {
                return Err(FrameError::ExcessiveLoad { len, limit: usize::MAX });
            }
            return Ok((Frame::Data(PayloadLen(len as usize)), consumed));
        }
        if ty == HEADERS && len > max as u64 {
            return Err(FrameError::ExcessiveLoad { len, limit: max });
        }
        if len > (usize::MAX - consumed) as u64 {
            return Err(FrameError::ExcessiveLoad { len, limit: usize::MAX });
        }
        let total: usize = consumed + len as usize;
        let ghost rest = src.bytes().skip(consumed as int);
        if src.remaining() < total {
            return Err(FrameError::Incomplete(total));
        }
        let payload = src.copy(consumed, len as usize);
        assert(payload@ =~= rest.take(len as int));
        assert(src.bytes().skip(total as int) =~= rest.skip(len as int));
        match read_payload(ty, payload) {
            Ok(frame) => Ok((frame, total)),
            Err(error) => Err(error),
        }
    }

    /// Reads the type and the length of a frame that has no meaning here, and tells how
    /// many bytes they take.
    pub fn decode_unknown_prefix(src: &BufList) -> (result: Result<
        Option<(u64, u64, usize)>,
        FrameError,
    >)
        requires
            src.wf(),
        ensures
            match unknown_prefix_spec(src.bytes()) {
                Ok(Some((ty, len, rest))) => result matches Ok(Some(found)) && found.0 == ty
                    && found.1 == len && found.2 <= src.bytes().len() && src.bytes().skip(
                    found.2 as int,
                ) == rest && rest.len() < src.bytes().len(),
                Ok(None) => result == Ok::<Option<(u64, u64, usize)>, FrameError>(None),
                Err(error) => result == Err::<Option<(u64, u64, usize)>, FrameError>(error),
            },
    {
        proof {
            varint::lemma_consumes(src.bytes());
            if let Some((_, rest)) = varint::decode_spec(src.bytes()) {
                varint::lemma_consumes(rest);
            }
        }
        let prefix = read_prefix(src);
        let ty: u64 = match prefix.ty {
            None => return Err(FrameError::Incomplete(prefix.missing)),
            Some(ty) => ty,
        };
        if forbidden(ty) {
            return Err(FrameError::UnsupportedFrame(ty));
        }
        if known(ty) {
            return Ok(None);
        }
        match prefix.len {
            None => Err(FrameError::Incomplete(prefix.missing)),
            Some((len, consumed)) => Ok(Some((ty, len, consumed))),
        }
    }

    /// Reads the type and the length of a frame whose payload is read as it comes, and
    /// tells how many bytes they take.
    pub fn decode_payload_prefix(src: &BufList) -> (result: Result<
        Option<(u64, PayloadLen, usize)>,
        FrameError,
    >)
        requires
            src.wf(),
        ensures
            match payload_prefix_spec(src.bytes()) {
                Ok(Some((ty, len, rest))) => result matches Ok(Some(found)) && found.0 == ty
                    && found.1 == PayloadLen(len) && found.2 <= src.bytes().len()
                    && src.bytes().skip(found.2 as int) == rest && rest.len() < src.bytes().len(),
                Ok(None) => result == Ok::<Option<(u64, PayloadLen, usize)>, FrameError>(None),
                Err(error) => result == Err::<Option<(u64, PayloadLen, usize)>, FrameError>(error),
            },
    {
        proof {
            varint::lemma_consumes(src.bytes());
            if let Some((_, rest)) = varint::decode_spec(src.bytes()) {
                varint::lemma_consumes(rest);
            }
        }
        let prefix = read_prefix(src);
        let ty: u64 = match prefix.ty {
            None => return Err(FrameError::Incomplete(prefix.missing)),
            Some(ty) => ty,
        };
        if ty != DATA && ty != HEADERS {
            return Ok(None);
        }
        match prefix.len {
            None => Err(FrameError::Incomplete(prefix.missing)),
            Some((len, consumed)) => if len > usize::MAX as u64 {
                Err(FrameError::ExcessiveLoad { len, limit: usize::MAX })
            } else {
                Ok(Some((ty, PayloadLen(len as usize), consumed)))
            },
        }
    }
}

/// The type of a frame.
pub open spec fn type_of<B>(frame: FrameView<B>) -> int {
    match frame {
        FrameView::Data(_) => DATA as int,
        FrameView::Headers(_) => HEADERS as int,
        FrameView::CancelPush(_) => CANCEL_PUSH as int,
        FrameView::Settings(_) => SETTINGS as int,
        FrameView::PushPromise(_, _) => PUSH_PROMISE as int,
        FrameView::Goaway(_) => GOAWAY as int,
        FrameView::MaxPushId(_) => MAX_PUSH_ID as int,
        FrameView::WebTransportStream(_) => WEBTRANSPORT_BI_STREAM as int,
        FrameView::Grease(n) => crate::config::grease_id(n),
    }
}

/// The payload of a frame.
pub open spec fn payload_bytes(frame: FrameView<Seq<u8>>) -> Seq<u8> {
    match frame {
        FrameView::Data(data) => data,
        FrameView::Headers(encoded) => encoded,
        FrameView::CancelPush(id) => varint::encode_spec(id),
        FrameView::Settings(entries) => settings_bytes(entries),
        FrameView::PushPromise(id, encoded) => varint::encode_spec(id) + encoded,
        FrameView::Goaway(id) => varint::encode_spec(id),
        FrameView::MaxPushId(id) => varint::encode_spec(id),
        FrameView::WebTransportStream(id) => Seq::empty(),
        FrameView::Grease(n) => grease_payload(),
    }
}

/// What a frame of a reserved type holds.
pub open spec fn grease_payload() -> Seq<u8> {
    seq![0x67u8, 0x72, 0x65, 0x61, 0x73, 0x65]
}

/// The bytes of a frame.
pub open spec fn frame_bytes(frame: FrameView<Seq<u8>>) -> Seq<u8> {
    match frame {
        FrameView::WebTransportStream(id) => varint::encode_spec(WEBTRANSPORT_BI_STREAM)
            + varint::encode_spec(id),
        _ => varint::encode_spec(type_of(frame) as u64) + varint::encode_spec(
            payload_bytes(frame).len() as u64,
        ) + payload_bytes(frame),
    }
}

/// Whether the numbers of a frame are variable-length integers.
pub open spec fn encodable_frame(frame: FrameView<Seq<u8>>) -> bool {
    match frame {
        FrameView::Data(data) => data.len() <= MAX_VARINT,
        FrameView::Headers(encoded) => encoded.len() <= MAX_VARINT,
        FrameView::CancelPush(id) => id <= MAX_VARINT,
        FrameView::Settings(entries) => settings_in_range(entries) && settings_bytes(entries).len()
            <= MAX_VARINT,
        FrameView::PushPromise(id, encoded) => id <= MAX_VARINT && encoded.len() + 8 <= MAX_VARINT,
        FrameView::Goaway(id) => id <= MAX_VARINT,
        FrameView::MaxPushId(id) => id <= MAX_VARINT,
        FrameView::WebTransportStream(id) => id <= MAX_VARINT,
        FrameView::Grease(n) => true,
    }
}

/// A frame with the view of the payload of a DATA frame.
pub open spec fn with_data(frame: Frame<Vec<u8>>) -> FrameView<Seq<u8>> {
    match frame {
        Frame::Data(data) => FrameView::Data(data@),
        Frame::Headers(encoded) => FrameView::Headers(encoded@),
        Frame::CancelPush(id) => FrameView::CancelPush(id),
        Frame::Settings(settings) => FrameView::Settings(settings@),
        Frame::PushPromise(promise) => FrameView::PushPromise(promise.id, promise.encoded@),
        Frame::Goaway(id) => FrameView::Goaway(id),
        Frame::MaxPushId(id) => FrameView::MaxPushId(id),
        Frame::WebTransportStream(id) => FrameView::WebTransportStream(id),
        Frame::Grease(n) => FrameView::Grease(n),
    }
}

/// Writes a frame with this type and this payload.
pub fn put_frame(ty: u64, payload: &[u8], buf: &mut Vec<u8>)
    requires
        ty <= MAX_VARINT,
        payload@.len() <= MAX_VARINT,
    ensures
        final(buf)@ == old(buf)@ + (varint::encode_spec(ty) + varint::encode_spec(
            payload@.len() as u64,
        ) + payload@),
{
    varint::encode(ty, buf);
    varint::encode(payload.len() as u64, buf);
    put_slice(buf, payload);
    assert(buf@ =~= old(buf)@ + (varint::encode_spec(ty) + varint::encode_spec(
        payload@.len() as u64,
    ) + payload@));
}

impl Frame<Vec<u8>> {
    /// A frame with an encoded field section.
    pub fn headers(encoded: Vec<u8>) -> (frame: Self)
        ensures
            frame == Frame::<Vec<u8>>::Headers(encoded),
    {
        Frame::Headers(encoded)
    }

    /// Writes the frame.
    pub fn encode_with_payload(&self, buf: &mut Vec<u8>)
        requires
            encodable_frame(with_data(*self)),
        ensures
            final(buf)@ == old(buf)@ + frame_bytes(with_data(*self)),
    {
        let ghost before = buf@;
        match self {
            Frame::Data(data) => put_frame(DATA, data.as_slice(), buf),
            Frame::Headers(encoded) => put_frame(HEADERS, encoded.as_slice(), buf),
            Frame::CancelPush(id) => put_value(CANCEL_PUSH, *id, buf),
            Frame::Settings(settings) => {
                let mut payload: Vec<u8> = Vec::new();
                settings.encode(&mut payload);
                assert(payload@ =~= settings_bytes(settings@));
                put_frame(SETTINGS, payload.as_slice(), buf)
            },
            Frame::PushPromise(promise) => {
                let mut payload: Vec<u8> = Vec::new();
                varint::encode(promise.id, &mut payload);
                put_slice(&mut payload, promise.encoded.as_slice());
                proof {
                    varint::round_trip(promise.id, Seq::empty());
                    assert(payload@ =~= varint::encode_spec(promise.id) + promise.encoded@);
                }
                put_frame(PUSH_PROMISE, payload.as_slice(), buf)
            },
            Frame::Goaway(id) => put_value(GOAWAY, *id, buf),
            Frame::MaxPushId(id) => put_value(MAX_PUSH_ID, *id, buf),
            Frame::WebTransportStream(id) => {
                varint::encode(WEBTRANSPORT_BI_STREAM, buf);
                varint::encode(*id, buf);
                assert(buf@ =~= before + frame_bytes(with_data(*self)));
            },
            Frame::Grease(n) => {
                let payload: [u8; 6] = [0x67, 0x72, 0x65, 0x61, 0x73, 0x65];
                assert(payload@ =~= grease_payload());
                put_frame(0x1f * (*n % 0x1000_0000) + 0x21, payload.as_slice(), buf)
            },
        }
    }
}

/// Writes a frame that holds one value.
fn put_value(ty: u64, value: u64, buf: &mut Vec<u8>)
    requires
        ty <= MAX_VARINT,
        value <= MAX_VARINT,
    ensures
        final(buf)@ == old(buf)@ + (varint::encode_spec(ty) + varint::encode_spec(
            varint::encode_spec(value).len() as u64,
        ) + varint::encode_spec(value)),
{
    let mut payload: Vec<u8> = Vec::new();
    varint::encode(value, &mut payload);
    proof {
        varint::round_trip(value, Seq::empty());
        assert(payload@ =~= varint::encode_spec(value));
    }
    put_frame(ty, payload.as_slice(), buf)
}

/// What a frame reads as: of a DATA frame, the length of its payload; of settings, those that
/// have a meaning.
pub open spec fn as_read(frame: FrameView<Seq<u8>>) -> FrameView<PayloadLen> {
    match frame {
        FrameView::Data(data) => FrameView::Data(PayloadLen(data.len() as usize)),
        FrameView::Headers(encoded) => FrameView::Headers(encoded),
        FrameView::CancelPush(id) => FrameView::CancelPush(id),
        FrameView::Settings(entries) => FrameView::Settings(meant(entries)),
        FrameView::PushPromise(id, encoded) => FrameView::PushPromise(id, encoded),
        FrameView::Goaway(id) => FrameView::Goaway(id),
        FrameView::MaxPushId(id) => FrameView::MaxPushId(id),
        FrameView::WebTransportStream(id) => FrameView::WebTransportStream(id),
        FrameView::Grease(n) => FrameView::Grease(n),
    }
}

/// Reading back a frame that was written gives the frame, and takes no byte of what
/// follows; of a DATA frame it leaves the payload where it is.
#[verifier::spinoff_prover]
#[verifier::rlimit(60)]
pub proof fn frame_round_trip(frame: FrameView<Seq<u8>>, max: usize, rest: Seq<u8>)
    requires
        encodable_frame(frame),
        frame !is Grease,
        frame_bytes(frame).len() <= usize::MAX,
        frame matches FrameView::Headers(encoded) ==> encoded.len() <= max,
        frame matches FrameView::Settings(entries) ==> acceptable_settings(entries),
    ensures
        frame_spec(frame_bytes(frame) + rest, max) == Ok::<
            (FrameView<PayloadLen>, Seq<u8>),
            FrameError,
        >(
            (
                as_read(frame),
                match frame {
                    FrameView::Data(data) => data + rest,
                    _ => rest,
                },
            ),
        ),
{
    let s = frame_bytes(frame) + rest;
    if let FrameView::WebTransportStream(id) = frame {
        assert(s =~= varint::encode_spec(WEBTRANSPORT_BI_STREAM) + (varint::encode_spec(id) + rest));
        varint::round_trip(WEBTRANSPORT_BI_STREAM, varint::encode_spec(id) + rest);
        varint::round_trip(id, rest);
    } else {
        let ty = type_of(frame) as u64;
        let payload = payload_bytes(frame);
        let len = payload.len() as u64;
        lemma_single(frame);
        let tail = payload + rest;
        assert(s =~= varint::encode_spec(ty) + (varint::encode_spec(len) + tail));
        varint::round_trip(ty, varint::encode_spec(len) + tail);
        varint::round_trip(len, tail);
        assert(tail.take(len as int) =~= payload);
        assert(tail.skip(len as int) =~= rest);
    }
}

/// The payload of a frame reads as the frame.
proof fn lemma_single(frame: FrameView<Seq<u8>>)
    requires
        encodable_frame(frame),
        frame !is Grease,
        frame !is WebTransportStream,
        frame matches FrameView::Settings(entries) ==> acceptable_settings(entries),
    ensures
        payload_bytes(frame).len() <= MAX_VARINT,
        frame !is Data ==> payload_spec(type_of(frame) as u64, payload_bytes(frame)) == Ok::<
            FrameView<PayloadLen>,
            FrameError,
        >(as_read(frame)),
{
    match frame {
        FrameView::CancelPush(id) => lemma_value(id),
        FrameView::Goaway(id) => lemma_value(id),
        FrameView::MaxPushId(id) => lemma_value(id),
        FrameView::PushPromise(id, encoded) => {
            varint::round_trip(id, encoded);
        },
        FrameView::Settings(entries) => settings_round_trip(entries),
        _ => {},
    }
}

proof fn lemma_value(value: u64)
    requires
        value <= MAX_VARINT,
    ensures
        varint::encode_spec(value).len() <= 8,
        single_value(varint::encode_spec(value)) == Ok::<u64, FrameError>(value),
{
    varint::round_trip(value, Seq::empty());
    assert(varint::encode_spec(value) + Seq::<u8>::empty() =~= varint::encode_spec(value));
}

/// A frame of a reserved type reads as one without a meaning, whatever it holds.
pub proof fn grease_is_unknown(n: u64, rest: Seq<u8>)
    ensures
        unknown_prefix_spec(frame_bytes(FrameView::Grease(n)) + rest) == Ok::<
            Option<(u64, u64, Seq<u8>)>,
            FrameError,
        >(Some((crate::config::grease_id(n) as u64, 6, grease_payload() + rest))),
{
    let ty = crate::config::grease_id(n) as u64;
    let tail = grease_payload() + rest;
    let frame: FrameView<Seq<u8>> = FrameView::Grease(n);
    assert(frame_bytes(frame) + rest =~= varint::encode_spec(ty) + (varint::encode_spec(6) + tail));
    varint::round_trip(ty, varint::encode_spec(6) + tail);
    varint::round_trip(6, tail);
}

} // verus!
