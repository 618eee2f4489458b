//! What an endpoint's settings come to at its peer.
//!
//! An endpoint writes its settings at the front of its control stream. Its peer reads them
//! there, and from then on keeps to the values that were sent.
use vstd::prelude::*;
use crate::client::{control_bytes, drive_spec, peer_max_section, prepared, DriveView, PreparedView};
use crate::config::{
    announced, announced_settings_are_understood, default_order, effective, flag_value, grease_id,
    insert_all, listed, sent_value, setting_value, Config, SettingId, Settings,
};
use crate::connection::{configured_encoder, control_failure, controlled, ConnectionInner};
use crate::delivery::{
    between_frames, numbers_are_found, settings_are_found, spelled, streams_end_between_frames,
};
use crate::error::{Code, ErrorOrigin, StreamError};
use crate::frame::{poll_next_spec, Poll, StreamView};
use crate::proto::frame::{
    settings_bytes, settings_spec, Frame, FrameView, PayloadLen, Settings as WireSettings,
    SettingsError,
};
use crate::proto::headers::HeaderErrorView;
use crate::proto::varint;
use crate::qpack::decoder::{stateless_spec, DecodedView, DecoderError};
use crate::qpack::dynamic::lines_size;
use crate::qpack::field::FieldView;
use crate::qpack::encoder::stateless_section;
use crate::qpack::laws::stateless_round_trip;
use crate::qpack::prefix_int;
use crate::qpack::shared::QpackEncoderView;
use crate::quic::MAX_VARINT;
use crate::shared_state::SharedState;

verus! {

/// Whether a setting is sent with this value, and not sent again after.
pub open spec fn sends(entries: Seq<(u64, u64)>, id: u64, value: u64) -> bool {
    exists|i: int|
        #![trigger entries[i]]
        0 <= i < entries.len() && entries[i] == (id, value) && forall|j: int|
            i < j < entries.len() ==> (#[trigger] entries[j]).0 != id
}

/// Whether a setting is not sent.
pub open spec fn omits(entries: Seq<(u64, u64)>, id: u64) -> bool {
    forall|i: int| 0 <= i < entries.len() ==> (#[trigger] entries[i]).0 != id
}

/// The value of a setting is the one that was sent last.
pub proof fn lookups_find_what_was_sent(entries: Seq<(u64, u64)>, id: u64)
    ensures
        forall|value: u64|
            sends(entries, id, value) <==> #[trigger] sent_value(entries, id) == Some(value),
        omits(entries, id) <==> sent_value(entries, id) is None,
    decreases entries.len(),
{
    if entries.len() > 0 {
        let before = entries.drop_last();
        let last = entries.len() - 1;
        lookups_find_what_was_sent(before, id);
        if entries.last().0 == id {
            assert forall|value: u64| sends(entries, id, value) implies entries.last().1
                == value by {
                let i = choose|i: int|
                    #![trigger entries[i]]
                    0 <= i < entries.len() && entries[i] == (id, value) && forall|j: int|
                        i < j < entries.len() ==> (#[trigger] entries[j]).0 != id;
                if i < last {
                    assert(entries[last].0 != id);
                }
            }
            assert(entries[last] == (id, entries.last().1));
            assert(sends(entries, id, entries.last().1));
        } else {
            assert forall|value: u64| sends(entries, id, value) == sends(before, id, value) by {
                if sends(entries, id, value) {
                    let i = choose|i: int|
                        #![trigger entries[i]]
                        0 <= i < entries.len() && entries[i] == (id, value) && forall|j: int|
                            i < j < entries.len() ==> (#[trigger] entries[j]).0 != id;
                    assert(i < last);
                    assert(before[i] == (id, value));
                    assert forall|j: int| i < j < before.len() implies (#[trigger] before[j]).0
                        != id by {
                        assert(entries[j] == before[j]);
                    }
                }
                if sends(before, id, value) {
                    let i = choose|i: int|
                        #![trigger before[i]]
                        0 <= i < before.len() && before[i] == (id, value) && forall|j: int|
                            i < j < before.len() ==> (#[trigger] before[j]).0 != id;
                    assert(entries[i] == (id, value));
                    assert forall|j: int| i < j < entries.len() implies (#[trigger] entries[j]).0
                        != id by {
                        if j < last {
                            assert(before[j] == entries[j]);
                        }
                    }
                }
            }
            assert(omits(entries, id) == omits(before, id)) by {
                if omits(before, id) {
                    assert forall|i: int| 0 <= i < entries.len() implies (#[trigger] entries[i]).0
                        != id by {
                        if i < last {
                            assert(before[i] == entries[i]);
                        }
                    }
                }
                if omits(entries, id) {
                    assert forall|i: int| 0 <= i < before.len() implies (#[trigger] before[i]).0
                        != id by {
                        assert(before[i] == entries[i]);
                    }
                }
            }
        }
    }
}

/// Each setting means the value that was sent for it, whatever the value; where a setting is a
/// flag, every value but zero sets it.
///
/// See <https://www.rfc-editor.org/rfc/rfc9114.html#section-7.2.4.1>,
/// <https://www.rfc-editor.org/rfc/rfc9204.html#section-5>,
/// <https://www.rfc-editor.org/rfc/rfc9220.html#section-3> and
/// <https://www.rfc-editor.org/rfc/rfc9297.html#section-2.1.1>.
pub proof fn settings_mean_what_was_sent(entries: Seq<(u64, u64)>, id: u64, value: u64)
    requires
        sends(entries, id, value),
    ensures
        id == 0x1 ==> effective(entries).qpack_max_table_capacity == Some(value),
        id == 0x6 ==> effective(entries).max_field_section_size == value,
        id == 0x7 ==> effective(entries).qpack_blocked_streams == Some(value),
        id == 0x8 ==> effective(entries).enable_extended_connect == (value != 0),
        id == 0x33 ==> effective(entries).enable_datagram == (value != 0),
        id == 0x2b60_3742 ==> effective(entries).enable_webtransport == (value != 0),
        id == 0x2b60_3743 ==> effective(entries).max_webtransport_sessions == value,
{
    lookups_find_what_was_sent(entries, id);
    assert(sent_value(entries, id) == Some(value));
}

/// A setting that was not sent has its default: no limit on field sections, no dynamic table,
/// nothing that waits for insertions, and no extension.
pub proof fn settings_not_sent_are_at_their_defaults(entries: Seq<(u64, u64)>)
    ensures
        omits(entries, 0x1) ==> effective(entries).qpack_max_table_capacity is None,
        omits(entries, 0x6) ==> effective(entries).max_field_section_size
            == 0x3fff_ffff_ffff_ffffu64,
        omits(entries, 0x7) ==> effective(entries).qpack_blocked_streams is None,
        omits(entries, 0x8) ==> !effective(entries).enable_extended_connect,
        omits(entries, 0x33) ==> !effective(entries).enable_datagram,
        omits(entries, 0x2b60_3742) ==> !effective(entries).enable_webtransport,
        omits(entries, 0x2b60_3743) ==> effective(entries).max_webtransport_sessions == 0,
{
    lookups_find_what_was_sent(entries, 0x1);
    lookups_find_what_was_sent(entries, 0x6);
    lookups_find_what_was_sent(entries, 0x7);
    lookups_find_what_was_sent(entries, 0x8);
    lookups_find_what_was_sent(entries, 0x33);
    lookups_find_what_was_sent(entries, 0x2b60_3742);
    lookups_find_what_was_sent(entries, 0x2b60_3743);
}

/// Each setting is written as its number and its value, one after the other.
///
/// See <https://www.rfc-editor.org/rfc/rfc9114.html#section-7.2.4>.
pub proof fn settings_are_spelled(entries: Seq<(u64, u64)>, id: u64, value: u64)
    ensures
        settings_bytes(Seq::empty()) == Seq::<u8>::empty(),
        settings_bytes(entries.push((id, value))) == settings_bytes(entries) + varint::encode_spec(
            id,
        ) + varint::encode_spec(value),
    decreases entries.len(),
{
    let all = entries.push((id, value));
    if entries.len() == 0 {
        assert(all.skip(1) =~= Seq::<(u64, u64)>::empty());
        assert(settings_bytes(all.skip(1)) =~= Seq::<u8>::empty());
    } else {
        assert(all.skip(1) =~= entries.skip(1).push((id, value)));
        settings_are_spelled(entries.skip(1), id, value);
    }
    assert(settings_bytes(all) =~= settings_bytes(entries) + varint::encode_spec(id)
        + varint::encode_spec(value));
}

/// Whether settings may be sent: each number and each value can be written, no number is one
/// that HTTP/2 had, and none comes twice.
///
/// See <https://www.rfc-editor.org/rfc/rfc9114.html#section-7.2.4>.
pub open spec fn may_be_sent(entries: Seq<(u64, u64)>) -> bool {
    &&& forall|i: int|
        0 <= i < entries.len() ==> (#[trigger] entries[i]).0 <= 0x3fff_ffff_ffff_ffff
            && entries[i].1 <= 0x3fff_ffff_ffff_ffff && entries[i].0 != 2 && entries[i].0 != 3
            && entries[i].0 != 4 && entries[i].0 != 5
    &&& forall|i: int, j: int|
        0 <= i < j < entries.len() ==> (#[trigger] entries[i]).0 != (#[trigger] entries[j]).0
}

/// Settings that were written are read, and mean at the peer the values that were written.
pub proof fn written_settings_mean_what_was_sent(entries: Seq<(u64, u64)>, id: u64, value: u64)
    requires
        may_be_sent(entries),
        sends(entries, id, value),
    ensures
        ({
            let read = settings_spec(Seq::empty(), settings_bytes(entries));
            &&& read is Ok
            &&& id == 0x1 ==> effective(read->Ok_0).qpack_max_table_capacity == Some(value)
            &&& id == 0x6 ==> effective(read->Ok_0).max_field_section_size == value
            &&& id == 0x7 ==> effective(read->Ok_0).qpack_blocked_streams == Some(value)
            &&& id == 0x8 ==> effective(read->Ok_0).enable_extended_connect == (value != 0)
            &&& id == 0x33 ==> effective(read->Ok_0).enable_datagram == (value != 0)
            &&& id == 0x2b60_3742 ==> effective(read->Ok_0).enable_webtransport == (value != 0)
            &&& id == 0x2b60_3743 ==> effective(read->Ok_0).max_webtransport_sessions == value
        }),
{
    announced_settings_are_understood(entries);
    settings_mean_what_was_sent(entries, id, value);
}

/// Settings that were not written are at their defaults at the peer.
pub proof fn settings_not_written_are_at_their_defaults(entries: Seq<(u64, u64)>)
    requires
        may_be_sent(entries),
    ensures
        ({
            let read = settings_spec(Seq::empty(), settings_bytes(entries));
            let peer = effective(read->Ok_0);
            &&& read is Ok
            &&& omits(entries, 0x1) ==> peer.qpack_max_table_capacity is None
            &&& omits(entries, 0x6) ==> peer.max_field_section_size == 0x3fff_ffff_ffff_ffffu64
            &&& omits(entries, 0x7) ==> peer.qpack_blocked_streams is None
            &&& omits(entries, 0x8) ==> !peer.enable_extended_connect
            &&& omits(entries, 0x33) ==> !peer.enable_datagram
            &&& omits(entries, 0x2b60_3742) ==> !peer.enable_webtransport
            &&& omits(entries, 0x2b60_3743) ==> peer.max_webtransport_sessions == 0
        }),
{
    announced_settings_are_understood(entries);
    settings_not_sent_are_at_their_defaults(entries);
}

/// A setting that HTTP/2 had is an error, and so is one that has a meaning and comes again,
/// and one of which the value is missing.
///
/// See <https://www.rfc-editor.org/rfc/rfc9114.html#section-7.2.4.1>.
pub proof fn bad_settings_are_refused(
    before: Seq<(u64, u64)>,
    id: u64,
    value: u64,
    rest: Seq<u8>,
)
    requires
        id <= MAX_VARINT,
        value <= MAX_VARINT,
    ensures
        2 <= id <= 5 ==> settings_spec(
            before,
            varint::encode_spec(id) + varint::encode_spec(value) + rest,
        ) == Err::<Seq<(u64, u64)>, SettingsError>(SettingsError::InvalidSettingId(id)),
        (id == 0x1 || id == 0x6 || id == 0x7 || id == 0x8 || id == 0x33 || id == 0x2b60_3742 || id
            == 0x2b60_3743) && !omits(before, id) ==> settings_spec(
            before,
            varint::encode_spec(id) + varint::encode_spec(value) + rest,
        ) == Err::<Seq<(u64, u64)>, SettingsError>(SettingsError::Repeated(id)),
        settings_spec(before, varint::encode_spec(id)) == Err::<Seq<(u64, u64)>, SettingsError>(
            SettingsError::Malformed,
        ),
{
    let s = varint::encode_spec(id) + varint::encode_spec(value) + rest;
    assert(s =~= varint::encode_spec(id) + (varint::encode_spec(value) + rest));
    varint::round_trip(id, varint::encode_spec(value) + rest);
    varint::round_trip(value, rest);
    varint::round_trip(id, Seq::empty());
    assert(varint::encode_spec(id) + Seq::<u8>::empty() =~= varint::encode_spec(id));
    lookups_find_what_was_sent(before, id);
}

/// A setting without a meaning is passed over, with what follows it read as if it were not
/// there.
///
/// See <https://www.rfc-editor.org/rfc/rfc9114.html#section-7.2.4>.
pub proof fn unknown_settings_are_passed_over(
    before: Seq<(u64, u64)>,
    id: u64,
    value: u64,
    rest: Seq<u8>,
)
    requires
        id <= MAX_VARINT,
        value <= MAX_VARINT,
        !(1 <= id <= 8),
        id != 0x33,
        id != 0x2b60_3742,
        id != 0x2b60_3743,
    ensures
        settings_spec(before, varint::encode_spec(id) + varint::encode_spec(value) + rest)
            == settings_spec(before, rest),
{
    let s = varint::encode_spec(id) + varint::encode_spec(value) + rest;
    assert(s =~= varint::encode_spec(id) + (varint::encode_spec(value) + rest));
    varint::round_trip(id, varint::encode_spec(value) + rest);
    varint::round_trip(value, rest);
}

proof fn lemma_settings_stay<W>(config: Config, v: DriveView<W>)
    requires
        v.shared.settings is Some,
    ensures
        drive_spec(config, v).2.shared.settings == v.shared.settings,
    decreases control_bytes(v),
{
    if let Some(stream) = v.control {
        let (step, after) = poll_next_spec(stream);
        let read = DriveView { control: Some(after), ..v };
        if let Some(next) = crate::connection::control_read(step) {
            if control_failure(v.got_peer_settings, next) is None {
                let frame = next->Ok_0->Some_0;
                let (taken, flush) = crate::client::with_control_frame(config, read, frame);
                if crate::client::client_failure(v.client.recv_closing, frame) is None {
                    let then = crate::client::with_client_frame(taken, frame);
                    if control_bytes(then) < control_bytes(v) {
                        lemma_settings_stay(config, then);
                    }
                }
            }
        }
    }
}

/// Once the settings at the front of its control stream have arrived, a client keeps to the
/// values that were sent, whatever else has arrived on that stream.
pub proof fn clients_keep_to_what_was_sent<W>(
    config: Config,
    v: DriveView<W>,
    stream: StreamView,
    entries: Seq<(u64, u64)>,
    rest: Seq<u8>,
    id: u64,
    value: u64,
)
    requires
        may_be_sent(entries),
        sends(entries, id, value),
        v.control == Some(stream),
        between_frames(stream, spelled(0x4, settings_bytes(entries)) + rest),
        spelled(0x4, settings_bytes(entries)).len() <= usize::MAX,
        settings_bytes(entries).len() <= MAX_VARINT,
        !v.got_peer_settings,
        v.shared.settings is None,
    ensures
        ({
            let after = drive_spec(config, v).2;
            &&& after.shared.settings matches Some(peer) && {
                &&& id == 0x1 ==> peer.qpack_max_table_capacity == Some(value)
                &&& id == 0x6 ==> peer.max_field_section_size == value
                &&& id == 0x7 ==> peer.qpack_blocked_streams == Some(value)
                &&& id == 0x8 ==> peer.enable_extended_connect == (value != 0)
                &&& id == 0x33 ==> peer.enable_datagram == (value != 0)
                &&& id == 0x2b60_3742 ==> peer.enable_webtransport == (value != 0)
                &&& id == 0x2b60_3743 ==> peer.max_webtransport_sessions == value
            }
            &&& id == 0x6 ==> peer_max_section(after.shared) == value
        }),
{
    settings_are_found(stream, entries, rest);
    written_settings_mean_what_was_sent(entries, id, value);
    let (step, after) = poll_next_spec(stream);
    let read = DriveView { control: Some(after), ..v };
    let next = crate::connection::control_read(step)->Some_0;
    let frame = next->Ok_0->Some_0;
    let (taken, flush) = crate::client::with_control_frame(config, read, frame);
    let then = crate::client::with_client_frame(taken, frame);
    if control_bytes(then) < control_bytes(v) {
        lemma_settings_stay(config, then);
    }
}

/// A request goes out with all of its fields where the peer's limit permits, and is refused
/// with its size and the limit where it does not; nothing but the request's size counts.
pub proof fn requests_keep_to_the_limit(
    shared: SharedState,
    peer: Settings,
    dynamic: bool,
    authority: Seq<u8>,
    fields: Seq<FieldView>,
    limit: usize,
)
    requires
        shared.settings == Some(peer),
        !shared.closing,
        lines_size(fields) <= u64::MAX,
    ensures
        ({
            let size = lines_size(fields) as u64;
            let (result, after) = prepared(shared, dynamic, Ok(authority), fields);
            &&& after == shared
            &&& size > peer.max_field_section_size ==> result == Err::<PreparedView, StreamError>(
                StreamError::HeaderTooBig { actual_size: size, max_size: peer.max_field_section_size },
            )
            &&& size <= peer.max_field_section_size && dynamic ==> result == Ok::<
                PreparedView,
                StreamError,
            >(PreparedView::Dynamic(fields))
            &&& size <= peer.max_field_section_size && !dynamic ==> {
                &&& result matches Ok(PreparedView::Stateless(block)) && (block.len() <= limit
                    ==> stateless_spec(limit, peer.max_field_section_size, block).0 == Ok::<
                    DecodedView,
                    DecoderError,
                >(DecodedView { fields, dyn_ref: false, mem_size: size }))
            }
        }),
{
    crate::qpack::dynamic::lemma_lines_size_nonneg(fields);
    let block = stateless_section(fields);
    if lines_size(fields) <= peer.max_field_section_size && block.len() <= limit {
        stateless_round_trip(fields, peer.max_field_section_size, limit);
    }
}

/// This endpoint's encoder uses the smaller of the capacity that it is configured with and the
/// one that the peer permits, and tells the peer's decoder so, before anything else; with
/// either of them zero it keeps to the static table, and tells nothing.
///
/// See <https://www.rfc-editor.org/rfc/rfc9204.html#section-3.2.3>.
pub proof fn encoders_keep_to_the_peers_capacity(
    encoder: QpackEncoderView,
    config: Config,
    peer: Settings,
    permitted: usize,
)
    requires
        peer.qpack_max_table_capacity == Some(permitted as u64) || (permitted == 0
            && peer.qpack_max_table_capacity is None),
    ensures
        ({
            let after = configured_encoder(encoder, config, peer);
            let capacity = after.table.max_size;
            if config.qpack_encoder_table_capacity == 0 || permitted == 0 {
                after == encoder
            } else {
                &&& after.enabled
                &&& after.max_table_capacity == permitted
                &&& capacity <= config.qpack_encoder_table_capacity
                &&& capacity <= permitted
                &&& capacity == config.qpack_encoder_table_capacity || capacity == permitted
                &&& after.pending == encoder.pending + prefix_int::encode_spec(
                    5,
                    0b001,
                    capacity as u64,
                )
                &&& after.table.fields == encoder.table.fields
                &&& after.table.dropped == encoder.table.dropped
            }
        }),
{
}

/// Whether settings give this value to the setting of this number.
pub open spec fn states(settings: Settings, id: u64, value: u64) -> bool {
    ||| id == 0x1 && settings.qpack_max_table_capacity == Some(value)
    ||| id == 0x6 && settings.max_field_section_size == value
    ||| id == 0x7 && settings.qpack_blocked_streams == Some(value)
    ||| id == 0x8 && value == if settings.enable_extended_connect {
        1u64
    } else {
        0
    }
    ||| id == 0x33 && value == if settings.enable_datagram {
        1u64
    } else {
        0
    }
    ||| id == 0x2b60_3742 && value == if settings.enable_webtransport {
        1u64
    } else {
        0
    }
    ||| id == 0x2b60_3743 && settings.max_webtransport_sessions == value
}

proof fn lemma_listed(settings: Settings, order: Seq<SettingId>)
    ensures
        forall|i: int, value: u64|
            0 <= i < order.len() && #[trigger] states(settings, setting_value(order[i]), value)
                && !(order[i] is Other) ==> listed(settings, order).contains(
                (setting_value(order[i]), value),
            ),
        forall|k: int|
            0 <= k < listed(settings, order).len() ==> states(
                settings,
                (#[trigger] listed(settings, order)[k]).0,
                listed(settings, order)[k].1,
            ) && exists|i: int|
                0 <= i < order.len() && setting_value(#[trigger] order[i]) == listed(
                    settings,
                    order,
                )[k].0,
    decreases order.len(),
{
    let all = listed(settings, order);
    if order.len() > 0 {
        let front = order.drop_last();
        let before = listed(settings, front);
        lemma_listed(settings, front);
        assert forall|i: int, value: u64|
            0 <= i < order.len() && #[trigger] states(settings, setting_value(order[i]), value) && !(
            order[i] is Other) implies all.contains((setting_value(order[i]), value)) by {
            if i < front.len() {
                assert(front[i] == order[i]);
                assert(states(settings, setting_value(front[i]), value));
                assert(before.contains((setting_value(front[i]), value)));
                let k = choose|k: int|
                    0 <= k < before.len() && before[k] == (setting_value(front[i]), value);
                assert(all[k] == before[k]);
            } else {
                assert(order[i] == order.last());
                assert(all[before.len() as int] == (setting_value(order[i]), value));
            }
        }
        assert forall|k: int| 0 <= k < all.len() implies states(
            settings,
            (#[trigger] all[k]).0,
            all[k].1,
        ) && exists|i: int|
            0 <= i < order.len() && setting_value(#[trigger] order[i]) == all[k].0 by {
            if k < before.len() {
                assert(all[k] == before[k]);
                let i = choose|i: int|
                    0 <= i < front.len() && setting_value(#[trigger] front[i]) == before[k].0;
                assert(order[i] == front[i]);
            } else {
                let i = order.len() - 1;
                assert(setting_value(order[i]) == all[k].0);
            }
        }
    }
}

/// An endpoint that sends settings announces each one that is listed with the value that it is
/// configured with, and each further one as it is; of the ones with a meaning it announces no
/// other.
pub proof fn configured_settings_are_announced(config: Config, order: Seq<SettingId>)
    requires
        config.send_settings,
        config.settings_order matches Some(given) ==> order == given@,
        config.settings_order is None ==> order == default_order(),
    ensures
        forall|i: int, value: u64|
            0 <= i < order.len() && #[trigger] states(
                config.settings,
                setting_value(order[i]),
                value,
            ) && !(order[i] is Other) ==> announced(config).contains(
                (setting_value(order[i]), value),
            ),
        forall|i: int|
            0 <= i < config.extra_settings@.len() ==> announced(config).contains(
                (
                    setting_value((#[trigger] config.extra_settings@[i]).0),
                    config.extra_settings@[i].1,
                ),
            ),
        forall|k: int|
            0 <= k < announced(config).len() ==> {
                let (id, value) = #[trigger] announced(config)[k];
                ||| config.send_grease && id % 0x1f == 2 && value == 0
                ||| states(config.settings, id, value)
                ||| exists|i: int|
                    0 <= i < config.extra_settings@.len() && id == setting_value(
                        (#[trigger] config.extra_settings@[i]).0,
                    ) && value == config.extra_settings@[i].1
            },
{
    let all = announced(config);
    let grease: Seq<(u64, u64)> = if config.send_grease {
        seq![(grease_id(config.grease) as u64, 0u64)]
    } else {
        Seq::empty()
    };
    let mid = listed(config.settings, order);
    let extra = config.extra_settings@.map_values(
        |setting: (SettingId, u64)| (setting_value(setting.0), setting.1),
    );
    assert(all == grease + mid + extra);
    lemma_listed(config.settings, order);
    assert forall|i: int, value: u64|
        0 <= i < order.len() && #[trigger] states(config.settings, setting_value(order[i]), value)
            && !(order[i] is Other) implies all.contains((setting_value(order[i]), value)) by {
        let entry = (setting_value(order[i]), value);
        assert(mid.contains(entry));
        let k = choose|k: int| 0 <= k < mid.len() && mid[k] == entry;
        assert(all[grease.len() + k] == entry);
    }
    assert forall|i: int| 0 <= i < config.extra_settings@.len() implies all.contains(
        (setting_value((#[trigger] config.extra_settings@[i]).0), config.extra_settings@[i].1),
    ) by {
        assert(all[grease.len() + mid.len() + i] == extra[i]);
    }
    assert forall|k: int| 0 <= k < all.len() implies {
        let (id, value) = #[trigger] all[k];
        ||| config.send_grease && id % 0x1f == 2 && value == 0
        ||| states(config.settings, id, value)
        ||| exists|i: int|
            0 <= i < config.extra_settings@.len() && id == setting_value(
                (#[trigger] config.extra_settings@[i]).0,
            ) && value == config.extra_settings@[i].1
    } by {
        if k < grease.len() {
            assert((0x1f * (config.grease % 0x1000_0000) + 0x21) % 0x1f == 2) by (nonlinear_arith);
        } else if k < grease.len() + mid.len() {
            assert(all[k] == mid[k - grease.len()]);
        } else {
            let i = k - grease.len() - mid.len();
            assert(all[k] == extra[i]);
            assert(setting_value(config.extra_settings@[i].0) == all[k].0);
        }
    }
}

proof fn lemma_insert_fresh(entries: Seq<(u64, u64)>, more: Seq<(u64, u64)>)
    requires
        forall|i: int|
            0 <= i < more.len() ==> (#[trigger] more[i]).0 <= MAX_VARINT && more[i].1 <= MAX_VARINT
                && omits(entries, more[i].0),
        forall|i: int, j: int|
            0 <= i < j < more.len() ==> (#[trigger] more[i]).0 != (#[trigger] more[j]).0,
    ensures
        insert_all(entries, more) == Ok::<Seq<(u64, u64)>, SettingsError>(entries + more),
    decreases more.len(),
{
    if more.len() == 0 {
        assert(entries + more =~= entries);
    } else {
        let (id, value) = more[0];
        let rest = more.skip(1);
        let next = entries.push((id, value));
        assert(omits(entries, more[0].0));
        lookups_find_what_was_sent(entries, id);
        assert forall|i: int| 0 <= i < rest.len() implies (#[trigger] rest[i]).0 <= MAX_VARINT
            && rest[i].1 <= MAX_VARINT && omits(next, rest[i].0) by {
            assert(rest[i] == more[i + 1]);
            assert(more[0].0 != more[i + 1].0);
            assert(omits(entries, more[i + 1].0));
            assert forall|k: int| 0 <= k < next.len() implies (#[trigger] next[k]).0
                != rest[i].0 by {
                if k < entries.len() {
                    assert(next[k] == entries[k]);
                }
            }
        }
        assert forall|i: int, j: int| 0 <= i < j < rest.len() implies (#[trigger] rest[i]).0 != (
        #[trigger] rest[j]).0 by {
            assert(rest[i] == more[i + 1]);
            assert(rest[j] == more[j + 1]);
        }
        lemma_insert_fresh(next, rest);
        assert(next + rest =~= entries + more);
    }
}

/// Settings that may be sent are taken as they are, to be sent.
pub proof fn settings_to_send_are_taken(entries: Seq<(u64, u64)>)
    requires
        may_be_sent(entries),
    ensures
        insert_all(Seq::empty(), entries) == Ok::<Seq<(u64, u64)>, SettingsError>(entries),
{
    assert forall|i: int| 0 <= i < entries.len() implies omits(
        Seq::<(u64, u64)>::empty(),
        (#[trigger] entries[i]).0,
    ) by {}
    lemma_insert_fresh(Seq::empty(), entries);
    assert(Seq::<(u64, u64)>::empty() + entries =~= entries);
}

proof fn lemma_default_listed(settings: Settings)
    ensures
        listed(settings, default_order()) == seq![
            (0x6u64, settings.max_field_section_size),
            (0x8u64, flag_value(settings.enable_extended_connect)),
            (0x2b60_3742u64, flag_value(settings.enable_webtransport)),
            (0x33u64, flag_value(settings.enable_datagram)),
            (0x2b60_3743u64, settings.max_webtransport_sessions),
        ] + (match settings.qpack_max_table_capacity {
            Some(value) => seq![(0x1u64, value)],
            None => Seq::empty(),
        }) + (match settings.qpack_blocked_streams {
            Some(value) => seq![(0x7u64, value)],
            None => Seq::empty(),
        }),
{
    let o7 = default_order();
    let o6 = o7.drop_last();
    let o5 = o6.drop_last();
    let o4 = o5.drop_last();
    let o3 = o4.drop_last();
    let o2 = o3.drop_last();
    let o1 = o2.drop_last();
    let o0 = o1.drop_last();
    let l1 = seq![(0x6u64, settings.max_field_section_size)];
    let l2 = l1.push((0x8u64, flag_value(settings.enable_extended_connect)));
    let l3 = l2.push((0x2b60_3742u64, flag_value(settings.enable_webtransport)));
    let l4 = l3.push((0x33u64, flag_value(settings.enable_datagram)));
    let l5 = l4.push((0x2b60_3743u64, settings.max_webtransport_sessions));
    assert(listed(settings, o0) =~= Seq::<(u64, u64)>::empty());
    assert(listed(settings, o1) =~= l1);
    assert(listed(settings, o2) =~= l2);
    assert(listed(settings, o3) =~= l3);
    assert(listed(settings, o4) =~= l4);
    assert(listed(settings, o5) =~= l5);
    let l6 = l5 + (match settings.qpack_max_table_capacity {
        Some(value) => seq![(0x1u64, value)],
        None => Seq::empty(),
    });
    assert(listed(settings, o6) =~= l6);
    assert(listed(settings, o7) =~= l6 + (match settings.qpack_blocked_streams {
        Some(value) => seq![(0x7u64, value)],
        None => Seq::empty(),
    }));
}

/// What an endpoint is configured with is what its peer understands of it: the settings that it
/// announces can be sent, and, written and read back, they mean the configuration.
#[verifier::spinoff_prover]
#[verifier::rlimit(60)]
pub proof fn configurations_are_understood(config: Config)
    requires
        config.send_settings,
        config.settings_order is None,
        config.extra_settings@ == Seq::<(SettingId, u64)>::empty(),
        config.settings.max_field_section_size <= MAX_VARINT,
        config.settings.max_webtransport_sessions <= MAX_VARINT,
        config.settings.qpack_max_table_capacity matches Some(value) ==> value <= MAX_VARINT,
        config.settings.qpack_blocked_streams matches Some(value) ==> value <= MAX_VARINT,
    ensures
        ({
            let sent = insert_all(Seq::empty(), announced(config));
            let read = settings_spec(Seq::empty(), settings_bytes(sent->Ok_0));
            &&& sent is Ok
            &&& may_be_sent(sent->Ok_0)
            &&& read is Ok
            &&& effective(read->Ok_0) == config.settings
        }),
{
    let all = announced(config);
    let settings = config.settings;
    lemma_default_listed(settings);
    let grease: Seq<(u64, u64)> = if config.send_grease {
        seq![(grease_id(config.grease) as u64, 0u64)]
    } else {
        Seq::empty()
    };
    let n = config.grease % 0x1000_0000;
    assert((0x1f * n + 0x21) % 0x1f == 2 && 0x21 <= 0x1f * n + 0x21 <= 0x1f * 0x1000_0000 + 0x21)
        by (nonlinear_arith)
        requires
            0 <= n < 0x1000_0000,
    ;
    let mid = listed(settings, default_order());
    assert(all =~= grease + mid);
    let g = grease.len() as int;
    assert forall|i: int| 0 <= i < mid.len() implies all[g + i] == mid[i] by {}
    assert(may_be_sent(all)) by {
        assert forall|i: int, j: int| 0 <= i < j < all.len() implies (#[trigger] all[i]).0 != (
        #[trigger] all[j]).0 by {
            assert(j >= g ==> all[j] == mid[j - g]);
            assert(i >= g ==> all[i] == mid[i - g]);
        }
    }
    settings_to_send_are_taken(all);
    announced_settings_are_understood(all);
    assert forall|i: int| 0 <= i < all.len() implies sends(all, (#[trigger] all[i]).0, all[i].1) by {
        assert forall|j: int| i < j < all.len() implies (#[trigger] all[j]).0 != all[i].0 by {}
    }
    assert(sends(all, all[g].0, all[g].1));
    assert(sends(all, all[g + 1].0, all[g + 1].1));
    assert(sends(all, all[g + 2].0, all[g + 2].1));
    assert(sends(all, all[g + 3].0, all[g + 3].1));
    assert(sends(all, all[g + 4].0, all[g + 4].1));
    settings_mean_what_was_sent(all, 0x6, settings.max_field_section_size);
    settings_mean_what_was_sent(all, 0x8, flag_value(settings.enable_extended_connect));
    settings_mean_what_was_sent(all, 0x2b60_3742, flag_value(settings.enable_webtransport));
    settings_mean_what_was_sent(all, 0x33, flag_value(settings.enable_datagram));
    settings_mean_what_was_sent(all, 0x2b60_3743, settings.max_webtransport_sessions);
    settings_not_sent_are_at_their_defaults(all);
    if let Some(value) = settings.qpack_max_table_capacity {
        assert(sends(all, all[g + 5].0, all[g + 5].1));
        settings_mean_what_was_sent(all, 0x1, value);
    } else {
        assert(omits(all, 0x1));
    }
    if let Some(value) = settings.qpack_blocked_streams {
        let last = all.len() - 1;
        assert(sends(all, all[last].0, all[last].1));
        settings_mean_what_was_sent(all, 0x7, value);
    } else {
        assert(omits(all, 0x7));
    }
}

/// A GOAWAY that arrives is followed: the client begins to close, and the boundary of the
/// requests that the peer processes is the one that was sent, or the one before where that was
/// smaller. Nothing else of the connection changes by it.
///
/// See <https://www.rfc-editor.org/rfc/rfc9114.html#section-5.2>.
pub proof fn goaways_are_followed<W>(config: Config, v: DriveView<W>, stream: StreamView, id: u64)
    requires
        v.control == Some(stream),
        between_frames(stream, spelled(0x7, varint::encode_spec(id))),
        !stream.eos,
        v.got_peer_settings,
        id <= MAX_VARINT,
        id % 4 == 0,
        v.client.recv_closing matches Some(previous) ==> id <= previous,
    ensures
        ({
            let (closed, flush, after) = drive_spec(config, v);
            &&& closed is Pending
            &&& !flush
            &&& after.client.recv_closing == Some(id)
            &&& after.client == (crate::client::Connection {
                recv_closing: Some(id),
                ..v.client
            })
            &&& after.shared.closing
            &&& after.shared.peer_goaway <= id
            &&& after.shared.peer_goaway <= v.shared.peer_goaway
            &&& after.shared.peer_goaway == id || after.shared.peer_goaway == v.shared.peer_goaway
            &&& after.shared.settings == v.shared.settings
            &&& after.shared.connection_error == v.shared.connection_error
            &&& after.qpack == v.qpack
            &&& after.got_peer_settings
        }),
{
    let s = spelled(0x7, varint::encode_spec(id));
    assert(s + Seq::<u8>::empty() =~= s);
    numbers_are_found(stream, id, Seq::empty());
    varint::round_trip(7, Seq::empty());
    let (step, after) = poll_next_spec(stream);
    let read = DriveView { control: Some(after), ..v };
    let frame: FrameView<PayloadLen> = FrameView::Goaway(id);
    let then = crate::client::with_client_frame(read, frame);
    assert(control_bytes(then) < control_bytes(v));
    streams_end_between_frames(after, Seq::empty());
    assert(drive_spec(config, then).0 is Pending);
}

/// A GOAWAY that does not name a request, or that names a later one than the one before, closes
/// the connection.
///
/// See <https://www.rfc-editor.org/rfc/rfc9114.html#section-5.2> and
/// <https://www.rfc-editor.org/rfc/rfc9114.html#section-7.2.6>.
pub proof fn bad_goaways_are_errors<W>(
    config: Config,
    v: DriveView<W>,
    stream: StreamView,
    id: u64,
    rest: Seq<u8>,
)
    requires
        v.control == Some(stream),
        between_frames(stream, spelled(0x7, varint::encode_spec(id)) + rest),
        v.got_peer_settings,
        id <= MAX_VARINT,
        id % 4 != 0 || (v.client.recv_closing matches Some(previous) && id > previous),
        v.shared.connection_error is None,
    ensures
        ({
            let (closed, flush, after) = drive_spec(config, v);
            &&& closed matches Poll::Ready(ErrorOrigin::Internal(error))
            &&& error.code == Code::H3_ID_ERROR
            &&& after.shared.connection_error == Some(closed->Ready_0)
            &&& after.client == v.client
        }),
{
    numbers_are_found(stream, id, rest);
}

/// A connection that takes the peer's settings keeps to the values that were sent, whatever is
/// sent after.
pub proof fn connections_keep_to_what_was_sent<W>(
    before: ConnectionInner<W>,
    after: ConnectionInner<W>,
    settings: WireSettings,
    wake: bool,
    id: u64,
    value: u64,
)
    requires
        controlled(before, after, Frame::Settings(settings), wake),
        sends(settings@, id, value),
        before.shared.settings is None,
    ensures
        after.got_peer_settings,
        after.shared.settings matches Some(peer) && {
            &&& id == 0x1 ==> peer.qpack_max_table_capacity == Some(value)
            &&& id == 0x6 ==> peer.max_field_section_size == value
            &&& id == 0x7 ==> peer.qpack_blocked_streams == Some(value)
            &&& id == 0x8 ==> peer.enable_extended_connect == (value != 0)
            &&& id == 0x33 ==> peer.enable_datagram == (value != 0)
            &&& id == 0x2b60_3742 ==> peer.enable_webtransport == (value != 0)
            &&& id == 0x2b60_3743 ==> peer.max_webtransport_sessions == value
        },
        id == 0x1 && 0 < value <= usize::MAX && before.config.qpack_encoder_table_capacity > 0 ==> {
            &&& wake
            &&& after.qpack_streams@.encoder.enabled
            &&& after.qpack_streams@.encoder.max_table_capacity == value
            &&& after.qpack_streams@.encoder.table.max_size <= value
            &&& after.qpack_streams@.encoder.table.max_size
                <= before.config.qpack_encoder_table_capacity
        },
{
    settings_mean_what_was_sent(settings@, id, value);
}

/// A request that cannot be sent is told why: that the connection closes, or what is wrong with
/// its authority; nothing of the connection changes by it.
pub proof fn requests_are_refused_with_the_cause(
    shared: SharedState,
    dynamic: bool,
    authority: Result<Seq<u8>, HeaderErrorView>,
    fields: Seq<FieldView>,
)
    ensures
        shared.closing ==> prepared(shared, dynamic, authority, fields) == (
            Err::<PreparedView, StreamError>(StreamError::ConnectionClosing),
            shared,
        ),
        !shared.closing ==> (authority matches Err(error) ==> {
            let (result, after) = prepared(shared, dynamic, authority, fields);
            &&& after == shared
            &&& result matches Err(StreamError::InvalidRequest { cause })
            &&& cause == if error is MissingAuthority {
                "missing authority"
            } else {
                "uri and authority field are in contradiction"
            }
        }),
{
}

} // verus!
