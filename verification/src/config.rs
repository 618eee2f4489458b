//! The settings of an endpoint.
use vstd::prelude::*;
use crate::proto::frame::{
    acceptable_settings, insert_spec, is_supported_setting, meant, settings_bytes,
    settings_in_range, settings_round_trip, settings_spec, Settings as WireSettings,
    SettingsError,
};
use crate::quic::MAX_VARINT;

verus! {

/// The identifier of a setting.
#[allow(non_camel_case_types)]
#[derive(Debug, Clone, Copy, PartialEq, Eq, Structural)]
pub enum SettingId {
    QPACK_MAX_TABLE_CAPACITY,
    MAX_HEADER_LIST_SIZE,
    QPACK_MAX_BLOCKED_STREAMS,
    ENABLE_CONNECT_PROTOCOL,
    H3_DATAGRAM,
    ENABLE_WEBTRANSPORT,
    WEBTRANSPORT_MAX_SESSIONS,
    Other(u64),
}

/// The number of a setting.
pub open spec fn setting_value(id: SettingId) -> u64 {
    match id {
        SettingId::QPACK_MAX_TABLE_CAPACITY => 0x1,
        SettingId::MAX_HEADER_LIST_SIZE => 0x6,
        SettingId::QPACK_MAX_BLOCKED_STREAMS => 0x7,
        SettingId::ENABLE_CONNECT_PROTOCOL => 0x8,
        SettingId::H3_DATAGRAM => 0x33,
        SettingId::ENABLE_WEBTRANSPORT => 0x2b60_3742,
        SettingId::WEBTRANSPORT_MAX_SESSIONS => 0x2b60_3743,
        SettingId::Other(value) => value,
    }
}

impl SettingId {
    /// The number of the setting.
    pub fn value(&self) -> (value: u64)
        ensures
            value == setting_value(*self),
    {
        match self {
            SettingId::QPACK_MAX_TABLE_CAPACITY => 0x1,
            SettingId::MAX_HEADER_LIST_SIZE => 0x6,
            SettingId::QPACK_MAX_BLOCKED_STREAMS => 0x7,
            SettingId::ENABLE_CONNECT_PROTOCOL => 0x8,
            SettingId::H3_DATAGRAM => 0x33,
            SettingId::ENABLE_WEBTRANSPORT => 0x2b60_3742,
            SettingId::WEBTRANSPORT_MAX_SESSIONS => 0x2b60_3743,
            SettingId::Other(value) => *value,
        }
    }
}

/// The settings of an endpoint, with those that it did not send at their defaults.
#[derive(Debug, Clone, Copy, PartialEq, Eq, Structural)]
pub struct Settings {
    pub max_field_section_size: u64,
    pub qpack_max_table_capacity: Option<u64>,
    pub qpack_blocked_streams: Option<u64>,
    pub enable_webtransport: bool,
    pub enable_extended_connect: bool,
    pub enable_datagram: bool,
    pub max_webtransport_sessions: u64,
}

/// The settings of an endpoint that sent none.
pub open spec fn default_settings() -> Settings {
    Settings {
        max_field_section_size: MAX_VARINT,
        qpack_max_table_capacity: None,
        qpack_blocked_streams: None,
        enable_webtransport: false,
        enable_extended_connect: false,
        enable_datagram: false,
        max_webtransport_sessions: 0,
    }
}

impl Default for Settings {
    fn default() -> (settings: Self)
        ensures
            settings == default_settings(),
    {
        Settings {
            max_field_section_size: MAX_VARINT,
            qpack_max_table_capacity: None,
            qpack_blocked_streams: None,
            enable_webtransport: false,
            enable_extended_connect: false,
            enable_datagram: false,
            max_webtransport_sessions: 0,
        }
    }
}

/// The value sent for a setting.
pub open spec fn sent_value(entries: Seq<(u64, u64)>, id: u64) -> Option<u64>
    decreases entries.len(),
{
    if entries.len() == 0 {
        None
    } else if entries.last().0 == id {
        Some(entries.last().1)
    } else {
        sent_value(entries.drop_last(), id)
    }
}

/// What the settings that were sent mean.
pub open spec fn effective(entries: Seq<(u64, u64)>) -> Settings {
    Settings {
        max_field_section_size: match sent_value(entries, 0x6) {
            Some(value) => value,
            None => MAX_VARINT,
        },
        qpack_max_table_capacity: sent_value(entries, 0x1),
        qpack_blocked_streams: sent_value(entries, 0x7),
        enable_webtransport: sent_value(entries, 0x2b60_3742) matches Some(value) && value != 0,
        enable_extended_connect: sent_value(entries, 0x8) matches Some(value) && value != 0,
        enable_datagram: sent_value(entries, 0x33) matches Some(value) && value != 0,
        max_webtransport_sessions: match sent_value(entries, 0x2b60_3743) {
            Some(value) => value,
            None => 0,
        },
    }
}

fn is_set(value: Option<u64>) -> (set: bool)
    ensures
        set == (value matches Some(value) && value != 0),
{
    match value {
        Some(value) => value != 0,
        None => false,
    }
}

impl Settings {
    /// What the settings of a frame mean.
    pub fn from_wire(settings: &WireSettings) -> (meaning: Self)
        ensures
            meaning == effective(settings@),
    {
        Settings {
            max_field_section_size: match settings.get(0x6) {
                Some(value) => value,
                None => MAX_VARINT,
            },
            qpack_max_table_capacity: settings.get(0x1),
            qpack_blocked_streams: settings.get(0x7),
            enable_webtransport: is_set(settings.get(0x2b60_3742)),
            enable_extended_connect: is_set(settings.get(0x8)),
            enable_datagram: is_set(settings.get(0x33)),
            max_webtransport_sessions: match settings.get(0x2b60_3743) {
                Some(value) => value,
                None => 0,
            },
        }
    }
}

/// How an endpoint is configured.
pub struct Config {
    /// Whether to send what the peer has to ignore.
    pub send_grease: bool,
    /// Which of the reserved identifiers to send, for a setting that has to be ignored.
    pub grease: u64,
    pub send_settings: bool,
    pub settings: Settings,
    /// The settings to send, in this order; where none is given, all, in a fixed order.
    pub settings_order: Option<Vec<SettingId>>,
    /// Settings to send as they are, after the others.
    pub extra_settings: Vec<(SettingId, u64)>,
    pub qpack_encoder_table_capacity: usize,
    pub qpack_decode_buffer_size: usize,
}

impl Default for Config {
    fn default() -> (config: Self)
        ensures
            config.send_grease,
            config.grease == 0,
            config.send_settings,
            config.settings == default_settings(),
            config.settings_order is None,
            config.extra_settings@ == Seq::<(SettingId, u64)>::empty(),
            config.qpack_encoder_table_capacity == 0,
            config.qpack_decode_buffer_size == usize::MAX,
    {
        Config {
            send_grease: true,
            grease: 0,
            send_settings: true,
            settings: Settings::default(),
            settings_order: None,
            extra_settings: Vec::new(),
            qpack_encoder_table_capacity: 0,
            qpack_decode_buffer_size: usize::MAX,
        }
    }
}

/// A flag as the value of a setting.
pub open spec fn flag_value(flag: bool) -> u64 {
    if flag {
        1
    } else {
        0
    }
}

/// The value that is configured for a setting.
pub open spec fn configured(settings: Settings, id: SettingId) -> Option<u64> {
    match id {
        SettingId::QPACK_MAX_TABLE_CAPACITY => settings.qpack_max_table_capacity,
        SettingId::MAX_HEADER_LIST_SIZE => Some(settings.max_field_section_size),
        SettingId::QPACK_MAX_BLOCKED_STREAMS => settings.qpack_blocked_streams,
        SettingId::ENABLE_CONNECT_PROTOCOL => Some(flag_value(settings.enable_extended_connect)),
        SettingId::H3_DATAGRAM => Some(flag_value(settings.enable_datagram)),
        SettingId::ENABLE_WEBTRANSPORT => Some(flag_value(settings.enable_webtransport)),
        SettingId::WEBTRANSPORT_MAX_SESSIONS => Some(settings.max_webtransport_sessions),
        SettingId::Other(_) => None,
    }
}

/// The order in which settings are sent where none is given.
pub open spec fn default_order() -> Seq<SettingId> {
    seq![
        SettingId::MAX_HEADER_LIST_SIZE,
        SettingId::ENABLE_CONNECT_PROTOCOL,
        SettingId::ENABLE_WEBTRANSPORT,
        SettingId::H3_DATAGRAM,
        SettingId::WEBTRANSPORT_MAX_SESSIONS,
        SettingId::QPACK_MAX_TABLE_CAPACITY,
        SettingId::QPACK_MAX_BLOCKED_STREAMS,
    ]
}

/// The settings that are listed and configured.
pub open spec fn listed(settings: Settings, order: Seq<SettingId>) -> Seq<(u64, u64)>
    decreases order.len(),
{
    if order.len() == 0 {
        Seq::empty()
    } else {
        let before = listed(settings, order.drop_last());
        match configured(settings, order.last()) {
            Some(value) => before.push((setting_value(order.last()), value)),
            None => before,
        }
    }
}

/// A reserved identifier.
///
/// See <https://www.rfc-editor.org/rfc/rfc9114.html#section-7.2.4.1>.
pub open spec fn grease_id(n: u64) -> int {
    0x1f * (n % 0x1000_0000) + 0x21
}

/// The settings that an endpoint sends, in their order.
pub open spec fn announced(config: Config) -> Seq<(u64, u64)> {
    if !config.send_settings {
        Seq::empty()
    } else {
        let grease = if config.send_grease {
            seq![(grease_id(config.grease) as u64, 0u64)]
        } else {
            Seq::empty()
        };
        let order = match config.settings_order {
            Some(order) => order@,
            None => default_order(),
        };
        grease + listed(config.settings, order) + config.extra_settings@.map_values(
            |setting: (SettingId, u64)| (setting_value(setting.0), setting.1),
        )
    }
}

/// Whether settings can be sent: none twice, and each value a variable-length integer.
pub open spec fn insert_all(entries: Seq<(u64, u64)>, more: Seq<(u64, u64)>) -> Result<
    Seq<(u64, u64)>,
    SettingsError,
>
    decreases more.len(),
{
    if more.len() == 0 {
        Ok(entries)
    } else {
        match insert_spec(entries, more[0].0, more[0].1) {
            Ok(entries) => insert_all(entries, more.skip(1)),
            Err(error) => Err(error),
        }
    }
}

fn configured_value(settings: &Settings, id: SettingId) -> (value: Option<u64>)
    ensures
        value == configured(*settings, id),
{
    match id {
        SettingId::QPACK_MAX_TABLE_CAPACITY => settings.qpack_max_table_capacity,
        SettingId::MAX_HEADER_LIST_SIZE => Some(settings.max_field_section_size),
        SettingId::QPACK_MAX_BLOCKED_STREAMS => settings.qpack_blocked_streams,
        SettingId::ENABLE_CONNECT_PROTOCOL => Some(
            if settings.enable_extended_connect {
                1
            } else {
                0
            },
        ),
        SettingId::H3_DATAGRAM => Some(
            if settings.enable_datagram {
                1
            } else {
                0
            },
        ),
        SettingId::ENABLE_WEBTRANSPORT => Some(
            if settings.enable_webtransport {
                1
            } else {
                0
            },
        ),
        SettingId::WEBTRANSPORT_MAX_SESSIONS => Some(settings.max_webtransport_sessions),
        SettingId::Other(_) => None,
    }
}

fn default_settings_order() -> (order: Vec<SettingId>)
    ensures
        order@ == default_order(),
{
    let mut order: Vec<SettingId> = Vec::new();
    order.push(SettingId::MAX_HEADER_LIST_SIZE);
    order.push(SettingId::ENABLE_CONNECT_PROTOCOL);
    order.push(SettingId::ENABLE_WEBTRANSPORT);
    order.push(SettingId::H3_DATAGRAM);
    order.push(SettingId::WEBTRANSPORT_MAX_SESSIONS);
    order.push(SettingId::QPACK_MAX_TABLE_CAPACITY);
    order.push(SettingId::QPACK_MAX_BLOCKED_STREAMS);
    assert(order@ =~= default_order());
    order
}

/// Appends the settings that are listed and configured.
fn push_listed(entries: &mut Vec<(u64, u64)>, settings: &Settings, order: &Vec<SettingId>)
    ensures
        final(entries)@ == old(entries)@ + listed(*settings, order@),
{
    let mut i: usize = 0;
    assert(order@.take(0) =~= Seq::<SettingId>::empty());
    assert(entries@ =~= old(entries)@ + listed(*settings, order@.take(0)));
    while i < order.len()
        invariant
            i <= order@.len(),
            entries@ == old(entries)@ + listed(*settings, order@.take(i as int)),
        decreases order@.len() - i,
    {
        proof {
            assert(order@.take(i + 1).drop_last() =~= order@.take(i as int));
            assert(order@.take(i + 1).last() == order@[i as int]);
        }
        let id = order[i];
        if let Some(value) = configured_value(settings, id) {
            entries.push((id.value(), value));
        }
        i = i + 1;
        assert(entries@ =~= old(entries)@ + listed(*settings, order@.take(i as int)));
    }
    assert(order@.take(i as int) =~= order@);
}

/// The settings that an endpoint sends.
pub fn local_settings(config: &Config) -> (result: Result<WireSettings, SettingsError>)
    ensures
        match insert_all(Seq::empty(), announced(*config)) {
            Ok(entries) => result is Ok && result->Ok_0@ == entries,
            Err(error) => result == Err::<WireSettings, SettingsError>(error),
        },
{
    let mut settings = WireSettings::default();
    if !config.send_settings {
        return Ok(settings);
    }
    let mut entries: Vec<(u64, u64)> = Vec::new();
    if config.send_grease {
        entries.push((0x1f * (config.grease % 0x1000_0000) + 0x21, 0));
    }
    match &config.settings_order {
        Some(order) => push_listed(&mut entries, &config.settings, order),
        None => {
            let order = default_settings_order();
            push_listed(&mut entries, &config.settings, &order);
        },
    }
    let ghost front = entries@;
    let ghost extra = config.extra_settings@.map_values(
        |setting: (SettingId, u64)| (setting_value(setting.0), setting.1),
    );
    let mut i: usize = 0;
    assert(front + extra.take(0) =~= front);
    while i < config.extra_settings.len()
        invariant
            i <= config.extra_settings@.len(),
            extra == config.extra_settings@.map_values(
                |setting: (SettingId, u64)| (setting_value(setting.0), setting.1),
            ),
            entries@ == front + extra.take(i as int),
        decreases config.extra_settings@.len() - i,
    {
        let id = config.extra_settings[i].0;
        let value: u64 = config.extra_settings[i].1;
        entries.push((id.value(), value));
        assert(extra.take(i + 1) =~= extra.take(i as int).push(extra[i as int]));
        i = i + 1;
        assert(entries@ =~= front + extra.take(i as int));
    }
    assert(extra.take(i as int) =~= extra);
    assert(entries@ =~= announced(*config));
    let mut j: usize = 0;
    let ghost goal = insert_all(Seq::empty(), entries@);
    assert(entries@.skip(0) =~= entries@);
    while j < entries.len()
        invariant
            j <= entries@.len(),
            goal == insert_all(settings@, entries@.skip(j as int)),
            goal == insert_all(Seq::empty(), announced(*config)),
        decreases entries@.len() - j,
    {
        proof {
            assert(entries@.skip(j as int)[0] == entries@[j as int]);
            assert(entries@.skip(j as int).skip(1) =~= entries@.skip(j + 1));
        }
        if let Err(error) = settings.insert(entries[j].0, entries[j].1) {
            return Err(error);
        }
        j = j + 1;
    }
    Ok(settings)
}

/// Settings that can be sent are variable-length integers.
pub proof fn lemma_insert_all(entries: Seq<(u64, u64)>, more: Seq<(u64, u64)>)
    requires
        settings_in_range(entries),
    ensures
        insert_all(entries, more) matches Ok(all) ==> settings_in_range(all),
    decreases more.len(),
{
    if more.len() > 0 {
        if let Ok(next) = insert_spec(entries, more[0].0, more[0].1) {
            lemma_insert_all(next, more.skip(1));
        }
    }
}

proof fn lemma_meant_push(entries: Seq<(u64, u64)>, entry: (u64, u64))
    ensures
        meant(entries.push(entry)) == if is_supported_setting(entry.0) {
            meant(entries).push(entry)
        } else {
            meant(entries)
        },
    decreases entries.len(),
{
    let all = entries.push(entry);
    if entries.len() == 0 {
        assert(all.skip(1) =~= Seq::<(u64, u64)>::empty());
        assert(meant(all.skip(1)) =~= Seq::<(u64, u64)>::empty());
        assert(meant(entries) =~= Seq::<(u64, u64)>::empty());
        if is_supported_setting(entry.0) {
            assert(meant(all) =~= meant(entries).push(entry));
        }
    } else {
        assert(all.skip(1) =~= entries.skip(1).push(entry));
        lemma_meant_push(entries.skip(1), entry);
        if is_supported_setting(entry.0) {
            assert(meant(all) =~= meant(entries).push(entry));
        } else {
            assert(meant(all) =~= meant(entries));
        }
    }
}

/// What has a meaning is sent with the same value among all settings and among those that have
/// one.
proof fn lemma_meant_value(entries: Seq<(u64, u64)>, id: u64)
    requires
        is_supported_setting(id),
    ensures
        sent_value(meant(entries), id) == sent_value(entries, id),
    decreases entries.len(),
{
    if entries.len() > 0 {
        let before = entries.drop_last();
        assert(before.push(entries.last()) =~= entries);
        lemma_meant_push(before, entries.last());
        lemma_meant_value(before, id);
        if is_supported_setting(entries.last().0) {
            assert(meant(before).push(entries.last()).drop_last() =~= meant(before));
        }
    }
}

/// The settings that an endpoint announces mean to its peer what they mean to the endpoint.
pub proof fn announced_settings_are_understood(entries: Seq<(u64, u64)>)
    requires
        acceptable_settings(entries),
    ensures
        ({
            let read = settings_spec(Seq::empty(), settings_bytes(entries));
            read is Ok && effective(read->Ok_0) == effective(entries)
        }),
{
    settings_round_trip(entries);
    assert forall|id: u64| is_supported_setting(id) implies #[trigger] sent_value(
        meant(entries),
        id,
    ) == sent_value(entries, id) by {
        lemma_meant_value(entries, id);
    }
}

} // verus!
