//! What the header section of a message says, and what is made of it.
use vstd::prelude::*;
use crate::ext::protocol_text;
use crate::qpack::field::FieldView;
use super::fields::{
    appended, first_value, has_field, is_name_byte, status_spec, valid_method, valid_name,
    valid_value,
};
use super::headers::{
    named_authority, no_pseudo, order_of, parsed_field, parsed_section, pseudo_field,
    pseudo_fields, readable, regular_field, request_pseudo, request_result, response_pseudo,
    section_fields, section_is_received_as_sent, sendable, sensitive_mask, status_text,
    HeaderErrorView, HeaderView, MessageExtensions, ParsedField, PseudoView,
    TargetView, AUTHORITY, CONNECT, HTTPS, METHOD, PATH, PROTOCOL, ROOT, SCHEME, STATUS,
};
use super::pseudo::{is_complete, lemma_mask_with, marked, PseudoId};

verus! {

/// The name of a pseudo-header field.
pub open spec fn pseudo_name(id: PseudoId) -> Seq<u8> {
    match id {
        PseudoId::Method => METHOD@,
        PseudoId::Scheme => SCHEME@,
        PseudoId::Authority => AUTHORITY@,
        PseudoId::Path => PATH@,
        PseudoId::Protocol => PROTOCOL@,
        PseudoId::Status => STATUS@,
    }
}

/// The values of the lines with this name, in their order, each with whether it is sensitive.
pub open spec fn said(fields: Seq<FieldView>, name: Seq<u8>) -> Seq<(Seq<u8>, bool)>
    decreases fields.len(),
{
    if fields.len() == 0 {
        Seq::empty()
    } else {
        let before = said(fields.drop_last(), name);
        if fields.last().name == name {
            before.push((fields.last().value, fields.last().sensitive))
        } else {
            before
        }
    }
}

/// The values of the regular fields with this name, in their order, each with whether it is
/// sensitive.
pub open spec fn held(entries: Seq<(Seq<u8>, Seq<u8>, bool)>, name: Seq<u8>) -> Seq<(Seq<u8>, bool)>
    decreases entries.len(),
{
    if entries.len() == 0 {
        Seq::empty()
    } else {
        let before = held(entries.drop_last(), name);
        if entries.last().0 == name {
            before.push((entries.last().1, entries.last().2))
        } else {
            before
        }
    }
}

/// Whether a name is that of a pseudo-header field: it begins with a colon.
pub open spec fn is_pseudo_name(name: Seq<u8>) -> bool {
    name.len() > 0 && name[0] == 0x3a
}

/// The names of pseudo-header fields differ.
proof fn lemma_pseudo_names(a: PseudoId, b: PseudoId)
    ensures
        is_pseudo_name(pseudo_name(a)),
        pseudo_name(a) == pseudo_name(b) ==> a == b,
{
    assert(METHOD@.len() == 7 && METHOD@[0] == 0x3a && METHOD@[1] == 0x6d);
    assert(SCHEME@.len() == 7 && SCHEME@[0] == 0x3a && SCHEME@[1] == 0x73 && SCHEME@[2] == 0x63);
    assert(AUTHORITY@.len() == 10 && AUTHORITY@[0] == 0x3a);
    assert(PATH@.len() == 5 && PATH@[0] == 0x3a);
    assert(STATUS@.len() == 7 && STATUS@[0] == 0x3a && STATUS@[1] == 0x73 && STATUS@[2] == 0x74);
    assert(PROTOCOL@.len() == 9 && PROTOCOL@[0] == 0x3a);
}

proof fn lemma_said_joined(a: Seq<FieldView>, b: Seq<FieldView>, name: Seq<u8>)
    ensures
        said(a + b, name) == said(a, name) + said(b, name),
    decreases b.len(),
{
    if b.len() == 0 {
        assert(a + b =~= a);
        assert(said(a, name) + said(b, name) =~= said(a, name));
    } else {
        assert((a + b).drop_last() =~= a + b.drop_last());
        lemma_said_joined(a, b.drop_last(), name);
        assert(said(a + b, name) =~= said(a, name) + said(b, name));
    }
}

/// One line says itself.
proof fn lemma_said_one(field: FieldView, name: Seq<u8>)
    ensures
        said(seq![field], name) == if field.name == name {
            seq![(field.value, field.sensitive)]
        } else {
            Seq::<(Seq<u8>, bool)>::empty()
        },
{
    assert(seq![field].drop_last() =~= Seq::<FieldView>::empty());
    assert(said(seq![field].drop_last(), name) =~= Seq::<(Seq<u8>, bool)>::empty());
    assert(Seq::<(Seq<u8>, bool)>::empty().push((field.value, field.sensitive)) =~= seq![
        (field.value, field.sensitive),
    ]);
}

/// What a pseudo-header field says, where it is there.
pub open spec fn one_value(field: Option<FieldView>) -> Seq<(Seq<u8>, bool)> {
    match field {
        Some(field) => seq![(field.value, field.sensitive)],
        None => Seq::empty(),
    }
}

proof fn lemma_pseudo_said(pseudo: PseudoView, ids: Seq<PseudoId>, id: PseudoId)
    requires
        ids.no_duplicates(),
    ensures
        said(pseudo_fields(pseudo, ids), pseudo_name(id)) == if ids.contains(id) {
            one_value(pseudo_field(pseudo, id))
        } else {
            Seq::<(Seq<u8>, bool)>::empty()
        },
    decreases ids.len(),
{
    let name = pseudo_name(id);
    if ids.len() > 0 {
        let rest = ids.skip(1);
        assert forall|i: int, j: int| 0 <= i < rest.len() && 0 <= j < rest.len() && i != j implies rest[i]
            != rest[j] by {
            assert(rest[i] == ids[i + 1]);
            assert(rest[j] == ids[j + 1]);
        }
        lemma_pseudo_said(pseudo, rest, id);
        lemma_pseudo_names(ids[0], id);
        if rest.contains(id) {
            let i = rest.index_of(id);
            assert(ids[i + 1] == id);
            assert(ids[0] != id);
        }
        if ids.contains(id) && ids[0] != id {
            let i = ids.index_of(id);
            assert(rest[i - 1] == id);
        }
        if let Some(field) = pseudo_field(pseudo, ids[0]) {
            assert(field.name == pseudo_name(ids[0]));
            lemma_said_joined(seq![field], pseudo_fields(pseudo, rest), name);
            lemma_said_one(field, name);
            assert(one_value(Some(field)) + Seq::<(Seq<u8>, bool)>::empty() =~= one_value(
                Some(field),
            ));
            assert(Seq::<(Seq<u8>, bool)>::empty() + said(pseudo_fields(pseudo, rest), name)
                =~= said(pseudo_fields(pseudo, rest), name));
        }
    }
}

/// Pseudo-header fields say nothing under another name.
proof fn lemma_pseudo_silent(pseudo: PseudoView, ids: Seq<PseudoId>, name: Seq<u8>)
    requires
        !is_pseudo_name(name),
    ensures
        said(pseudo_fields(pseudo, ids), name) == Seq::<(Seq<u8>, bool)>::empty(),
    decreases ids.len(),
{
    if ids.len() > 0 {
        lemma_pseudo_silent(pseudo, ids.skip(1), name);
        lemma_pseudo_names(ids[0], ids[0]);
        if let Some(field) = pseudo_field(pseudo, ids[0]) {
            lemma_said_joined(seq![field], pseudo_fields(pseudo, ids.skip(1)), name);
            lemma_said_one(field, name);
            assert(said(pseudo_fields(pseudo, ids), name) =~= Seq::<(Seq<u8>, bool)>::empty());
        }
    }
}

/// The regular fields say what they hold.
proof fn lemma_regular_said(entries: Seq<(Seq<u8>, Seq<u8>, bool)>, name: Seq<u8>)
    ensures
        said(
            entries.map_values(|entry: (Seq<u8>, Seq<u8>, bool)| regular_field(entry)),
            name,
        ) == held(entries, name),
    decreases entries.len(),
{
    let as_field = |entry: (Seq<u8>, Seq<u8>, bool)| regular_field(entry);
    if entries.len() > 0 {
        assert(entries.map_values(as_field).drop_last() =~= entries.drop_last().map_values(as_field));
        lemma_regular_said(entries.drop_last(), name);
    }
}

/// Regular fields have no name that begins with a colon.
proof fn lemma_regular_silent(entries: Seq<(Seq<u8>, Seq<u8>, bool)>, name: Seq<u8>)
    requires
        is_pseudo_name(name),
        forall|i: int| 0 <= i < entries.len() ==> valid_name((#[trigger] entries[i]).0),
    ensures
        held(entries, name) == Seq::<(Seq<u8>, bool)>::empty(),
    decreases entries.len(),
{
    if entries.len() > 0 {
        assert(valid_name(entries[entries.len() - 1].0));
        assert(is_name_byte(entries.last().0[0]));
        assert(entries.last().0 != name);
        assert forall|i: int| 0 <= i < entries.drop_last().len() implies valid_name(
            (#[trigger] entries.drop_last()[i]).0,
        ) by {
            assert(entries.drop_last()[i] == entries[i]);
        }
        lemma_regular_silent(entries.drop_last(), name);
    }
}

/// Whether the regular fields can stand in a section.
pub open spec fn named(entries: Seq<(Seq<u8>, Seq<u8>, bool)>) -> bool {
    forall|i: int| 0 <= i < entries.len() ==> valid_name((#[trigger] entries[i]).0)
}

/// What the section of a message says under each name.
proof fn lemma_section_said(pseudo: PseudoView, entries: Seq<(Seq<u8>, Seq<u8>, bool)>)
    requires
        named(entries),
        pseudo.order matches Some(order) ==> is_complete(order@),
    ensures
        forall|id: PseudoId| #[trigger]
            said(section_fields(pseudo, entries), pseudo_name(id)) == one_value(
                pseudo_field(pseudo, id),
            ),
        forall|name: Seq<u8>| !is_pseudo_name(name) ==> #[trigger] said(
            section_fields(pseudo, entries),
            name,
        ) == held(entries, name),
{
    let ids = order_of(pseudo);
    let front = pseudo_fields(pseudo, ids);
    let back = entries.map_values(|entry: (Seq<u8>, Seq<u8>, bool)| regular_field(entry));
    super::headers::lemma_default_order();
    assert(is_complete(ids));
    assert forall|id: PseudoId| #[trigger]
        said(section_fields(pseudo, entries), pseudo_name(id)) == one_value(
            pseudo_field(pseudo, id),
        ) by {
        lemma_pseudo_names(id, id);
        lemma_said_joined(front, back, pseudo_name(id));
        lemma_pseudo_said(pseudo, ids, id);
        lemma_regular_said(entries, pseudo_name(id));
        lemma_regular_silent(entries, pseudo_name(id));
        assert(said(front, pseudo_name(id)) + Seq::<(Seq<u8>, bool)>::empty() =~= said(
            front,
            pseudo_name(id),
        ));
    }
    assert forall|name: Seq<u8>| !is_pseudo_name(name) implies #[trigger] said(
        section_fields(pseudo, entries),
        name,
    ) == held(entries, name) by {
        lemma_said_joined(front, back, name);
        lemma_pseudo_silent(pseudo, ids, name);
        lemma_regular_said(entries, name);
        assert(Seq::<(Seq<u8>, bool)>::empty() + held(entries, name) =~= held(entries, name));
    }
}

/// Whether a pseudo-header field of a message was asked to be kept out of compression contexts.
pub open spec fn kept_out(ext: MessageExtensions, id: PseudoId) -> bool {
    ext.sensitivity matches Some(sensitivity) && marked(sensitivity.mask, id)
}

proof fn lemma_kept_out(ext: MessageExtensions, id: PseudoId)
    ensures
        marked(sensitive_mask(ext), id) == kept_out(ext, id),
{
    super::pseudo::lemma_unmarked();
}

/// The section of a request says what the request says: its method, its scheme, authority and
/// path as they were given, its protocol where it is a CONNECT request for one, and every field
/// under its name, with its values in their order. Only where a request that is no plain CONNECT
/// gives no scheme or no path do `https` and `/` stand in for them; a plain CONNECT request has
/// neither.
///
/// See <https://www.rfc-editor.org/rfc/rfc9114.html#section-4.3.1>.
pub proof fn requests_say_what_they_are(
    method: Seq<u8>,
    target: TargetView,
    ext: MessageExtensions,
    entries: Seq<(Seq<u8>, Seq<u8>, bool)>,
    name: Seq<u8>,
)
    requires
        named(entries),
        ext.order matches Some(order) ==> is_complete(order@),
    ensures
        ({
            let fields = section_fields(request_pseudo(method, target, ext), entries);
            let connect = method == CONNECT@;
            let plain_connect = connect && ext.protocol is None;
            &&& said(fields, METHOD@) == seq![(method, kept_out(ext, PseudoId::Method))]
            &&& match target.authority {
                Some(authority) => said(fields, AUTHORITY@) == seq![
                    (authority, kept_out(ext, PseudoId::Authority)),
                ],
                None => said(fields, AUTHORITY@) == Seq::<(Seq<u8>, bool)>::empty(),
            }
            &&& match target.scheme {
                Some(scheme) => !plain_connect ==> said(fields, SCHEME@) == seq![
                    (scheme, kept_out(ext, PseudoId::Scheme)),
                ],
                None => !plain_connect ==> said(fields, SCHEME@) == seq![
                    (HTTPS@, kept_out(ext, PseudoId::Scheme)),
                ],
            }
            &&& match target.path {
                Some(path) => !plain_connect ==> said(fields, PATH@) == seq![
                    (path, kept_out(ext, PseudoId::Path)),
                ],
                None => !plain_connect ==> said(fields, PATH@) == seq![
                    (ROOT@, kept_out(ext, PseudoId::Path)),
                ],
            }
            &&& plain_connect ==> said(fields, SCHEME@).len() == 0 && said(fields, PATH@).len() == 0
            &&& match ext.protocol {
                Some(protocol) => connect ==> said(fields, PROTOCOL@) == seq![
                    (protocol_text(protocol), kept_out(ext, PseudoId::Protocol)),
                ],
                None => said(fields, PROTOCOL@).len() == 0,
            }
            &&& !connect ==> said(fields, PROTOCOL@).len() == 0
            &&& said(fields, STATUS@).len() == 0
            &&& !is_pseudo_name(name) ==> said(fields, name) == held(entries, name)
        }),
{
    let pseudo = request_pseudo(method, target, ext);
    lemma_section_said(pseudo, entries);
    lemma_kept_out(ext, PseudoId::Method);
    lemma_kept_out(ext, PseudoId::Scheme);
    lemma_kept_out(ext, PseudoId::Authority);
    lemma_kept_out(ext, PseudoId::Path);
    lemma_kept_out(ext, PseudoId::Protocol);
    let fields = section_fields(pseudo, entries);
    assert(said(fields, pseudo_name(PseudoId::Method)) == one_value(
        pseudo_field(pseudo, PseudoId::Method),
    ));
    assert(said(fields, pseudo_name(PseudoId::Scheme)) == one_value(
        pseudo_field(pseudo, PseudoId::Scheme),
    ));
    assert(said(fields, pseudo_name(PseudoId::Authority)) == one_value(
        pseudo_field(pseudo, PseudoId::Authority),
    ));
    assert(said(fields, pseudo_name(PseudoId::Path)) == one_value(
        pseudo_field(pseudo, PseudoId::Path),
    ));
    assert(said(fields, pseudo_name(PseudoId::Protocol)) == one_value(
        pseudo_field(pseudo, PseudoId::Protocol),
    ));
    assert(said(fields, pseudo_name(PseudoId::Status)) == one_value(
        pseudo_field(pseudo, PseudoId::Status),
    ));
}

/// The section of a response says its status in three digits and every field under its name,
/// with its values in their order, and nothing else.
///
/// See <https://www.rfc-editor.org/rfc/rfc9114.html#section-4.3.2>.
pub proof fn responses_say_what_they_are(
    status: u16,
    ext: MessageExtensions,
    entries: Seq<(Seq<u8>, Seq<u8>, bool)>,
    id: PseudoId,
    name: Seq<u8>,
)
    requires
        named(entries),
        100 <= status <= 999,
    ensures
        ({
            let fields = section_fields(response_pseudo(status, ext), entries);
            &&& said(fields, STATUS@).len() == 1
            &&& status_spec(said(fields, STATUS@)[0].0) == Some(status)
            &&& said(fields, STATUS@)[0].1 == kept_out(ext, PseudoId::Status)
            &&& id != PseudoId::Status ==> said(fields, pseudo_name(id)).len() == 0
            &&& !is_pseudo_name(name) ==> said(fields, name) == held(entries, name)
        }),
{
    let pseudo = response_pseudo(status, ext);
    lemma_section_said(pseudo, entries);
    lemma_kept_out(ext, PseudoId::Status);
    let fields = section_fields(pseudo, entries);
    assert(said(fields, pseudo_name(id)) == one_value(pseudo_field(pseudo, id)));
    assert(said(fields, pseudo_name(PseudoId::Status)) == one_value(
        pseudo_field(pseudo, PseudoId::Status),
    ));
    let text = status_text(status);
    assert(text.len() == 3);
    assert(status / 100 % 10 == status / 100);
    assert(100 * (status as int / 100) + 10 * (status as int / 10 % 10) + status as int % 10
        == status);
}

/// The section of trailers says every field under its name, with its values in their order, and
/// no pseudo-header field.
pub proof fn trailers_say_what_they_are(
    entries: Seq<(Seq<u8>, Seq<u8>, bool)>,
    id: PseudoId,
    name: Seq<u8>,
)
    requires
        named(entries),
    ensures
        ({
            let fields = section_fields(no_pseudo(), entries);
            &&& said(fields, pseudo_name(id)).len() == 0
            &&& !is_pseudo_name(name) ==> said(fields, name) == held(entries, name)
        }),
{
    lemma_section_said(no_pseudo(), entries);
    assert(said(section_fields(no_pseudo(), entries), pseudo_name(id)) == one_value(
        pseudo_field(no_pseudo(), id),
    ));
}

/// A section has no line of another name that begins with a colon.
pub proof fn sections_have_no_other_pseudo_fields(
    pseudo: PseudoView,
    entries: Seq<(Seq<u8>, Seq<u8>, bool)>,
    name: Seq<u8>,
)
    requires
        named(entries),
        is_pseudo_name(name),
        forall|id: PseudoId| name != #[trigger] pseudo_name(id),
    ensures
        said(section_fields(pseudo, entries), name).len() == 0,
{
    let ids = order_of(pseudo);
    let back = entries.map_values(|entry: (Seq<u8>, Seq<u8>, bool)| regular_field(entry));
    lemma_said_joined(pseudo_fields(pseudo, ids), back, name);
    lemma_regular_said(entries, name);
    lemma_regular_silent(entries, name);
    lemma_others_silent(pseudo, ids, name);
}

proof fn lemma_others_silent(pseudo: PseudoView, ids: Seq<PseudoId>, name: Seq<u8>)
    requires
        forall|id: PseudoId| name != #[trigger] pseudo_name(id),
    ensures
        said(pseudo_fields(pseudo, ids), name) == Seq::<(Seq<u8>, bool)>::empty(),
    decreases ids.len(),
{
    if ids.len() > 0 {
        lemma_others_silent(pseudo, ids.skip(1), name);
        assert(name != pseudo_name(ids[0]));
        if let Some(field) = pseudo_field(pseudo, ids[0]) {
            lemma_said_joined(seq![field], pseudo_fields(pseudo, ids.skip(1)), name);
            lemma_said_one(field, name);
            assert(said(pseudo_fields(pseudo, ids), name) =~= Seq::<(Seq<u8>, bool)>::empty());
        }
    }
}

/// Each pseudo-header field of a list is one of those that were listed, in their order.
proof fn lemma_pseudo_positions(pseudo: PseudoView, ids: Seq<PseudoId>, i: int) -> (k: int)
    requires
        0 <= i < pseudo_fields(pseudo, ids).len(),
    ensures
        0 <= k < ids.len(),
        pseudo_field(pseudo, ids[k]) == Some(pseudo_fields(pseudo, ids)[i]),
        pseudo_fields(pseudo, ids.take(k)).len() == i,
    decreases ids.len(),
{
    let rest = ids.skip(1);
    assert(ids.take(0) =~= Seq::<PseudoId>::empty());
    match pseudo_field(pseudo, ids[0]) {
        Some(field) => if i == 0 {
            0
        } else {
            let k = lemma_pseudo_positions(pseudo, rest, i - 1);
            assert(ids.take(k + 1).skip(1) =~= rest.take(k));
            assert(ids.take(k + 1)[0] == ids[0]);
            k + 1
        },
        None => {
            let k = lemma_pseudo_positions(pseudo, rest, i);
            assert(ids.take(k + 1).skip(1) =~= rest.take(k));
            assert(ids.take(k + 1)[0] == ids[0]);
            k + 1
        },
    }
}

proof fn lemma_pseudo_len(pseudo: PseudoView, ids: Seq<PseudoId>, a: int, b: int)
    requires
        0 <= a <= b <= ids.len(),
    ensures
        pseudo_fields(pseudo, ids.take(a)).len() <= pseudo_fields(pseudo, ids.take(b)).len(),
    decreases b,
{
    assert(ids.take(0) =~= Seq::<PseudoId>::empty());
    if a > 0 {
        assert(ids.take(a).skip(1) =~= ids.skip(1).take(a - 1));
        assert(ids.take(b).skip(1) =~= ids.skip(1).take(b - 1));
        assert(ids.take(a)[0] == ids[0]);
        assert(ids.take(b)[0] == ids[0]);
        lemma_pseudo_len(pseudo, ids.skip(1), a - 1, b - 1);
    }
}

/// The pseudo-header fields of a section stand before all others, in the order that was chosen,
/// or, where none was, in the order method, scheme, authority, path, protocol, status. Behind
/// them come the regular fields in their own order.
pub proof fn sections_are_in_order(
    pseudo: PseudoView,
    entries: Seq<(Seq<u8>, Seq<u8>, bool)>,
    order: Seq<PseudoId>,
    i: int,
    j: int,
    a: int,
    b: int,
)
    requires
        match pseudo.order {
            Some(chosen) => order == chosen@,
            None => order == seq![
                PseudoId::Method,
                PseudoId::Scheme,
                PseudoId::Authority,
                PseudoId::Path,
                PseudoId::Protocol,
                PseudoId::Status,
            ],
        },
        0 <= i < j < section_fields(pseudo, entries).len(),
    ensures
        ({
            let fields = section_fields(pseudo, entries);
            let front = fields.len() - entries.len();
            &&& front >= 0
            &&& i >= front ==> fields[i] == (FieldView {
                name: entries[i - front].0,
                value: entries[i - front].1,
                sensitive: entries[i - front].2,
            })
            &&& i < front ==> is_pseudo_name(fields[i].name)
            &&& i < front && j < front && 0 <= a < order.len() && 0 <= b < order.len()
                && fields[i].name == pseudo_name(order[a]) && fields[j].name == pseudo_name(order[b])
                && order.no_duplicates() ==> a < b
        }),
{
    assert(order =~= order_of(pseudo));
    let fields = section_fields(pseudo, entries);
    let list = pseudo_fields(pseudo, order);
    let front = fields.len() - entries.len();
    assert(front == list.len());
    if i < front {
        let k = lemma_pseudo_positions(pseudo, order, i);
        assert(fields[i] == list[i]);
        assert(fields[i].name == pseudo_name(order[k]));
        lemma_pseudo_names(order[k], order[k]);
        if j < front {
            let m = lemma_pseudo_positions(pseudo, order, j);
            assert(fields[j] == list[j]);
            if m <= k {
                lemma_pseudo_len(pseudo, order, m, k);
            }
            if 0 <= a < order.len() && 0 <= b < order.len() && fields[i].name == pseudo_name(
                order[a],
            ) && fields[j].name == pseudo_name(order[b]) && order.no_duplicates() {
                lemma_pseudo_names(order[a], order[k]);
                lemma_pseudo_names(order[b], order[m]);
                assert(a == k);
                assert(b == m);
            }
        }
    } else {
        assert(fields[i] == regular_field(entries[i - front]));
    }
}

/// One more field of a name stands behind the others of its name, and changes no other name.
proof fn lemma_held_appended(
    entries: Seq<(Seq<u8>, Seq<u8>, bool)>,
    name: Seq<u8>,
    value: Seq<u8>,
    sensitive: bool,
    other: Seq<u8>,
)
    ensures
        held(appended(entries, name, value, sensitive), other) == if other == name {
            held(entries, other).push((value, sensitive))
        } else {
            held(entries, other)
        },
        appended(entries, name, value, sensitive).len() == entries.len() + 1,
    decreases entries.len(),
{
    let after = appended(entries, name, value, sensitive);
    if !has_field(entries, name) || entries.last().0 == name {
        assert(after.drop_last() =~= entries);
    } else {
        let last = entries.last();
        let before = appended(entries.drop_last(), name, value, sensitive);
        lemma_held_appended(entries.drop_last(), name, value, sensitive, other);
        assert(after.drop_last() =~= before);
        assert(after.last() == last);
    }
}

/// How many lines are no pseudo-header fields.
pub open spec fn regular_count(fields: Seq<FieldView>) -> nat
    decreases fields.len(),
{
    if fields.len() == 0 {
        0
    } else {
        regular_count(fields.drop_last()) + if is_pseudo_name(fields.last().name) {
            0nat
        } else {
            1nat
        }
    }
}

/// A section that is accepted holds every regular field that was received, under its name, with
/// its values in the order in which they came, each as sensitive as it was, and no other.
pub proof fn received_fields_are_kept(fields: Seq<FieldView>, name: Seq<u8>)
    requires
        parsed_section(fields) is Ok,
        !is_pseudo_name(name),
    ensures
        held(parsed_section(fields)->Ok_0.fields, name) == said(fields, name),
        parsed_section(fields)->Ok_0.fields.len() == regular_count(fields),
    decreases fields.len(),
{
    if fields.len() > 0 {
        let before = fields.drop_last();
        let line = fields.last();
        received_fields_are_kept(before, name);
        let header = parsed_section(before)->Ok_0;
        let read = parsed_field(line.name, line.value)->Ok_0;
        if let ParsedField::Header(n, v) = read {
            lemma_held_appended(header.fields, n, v, line.sensitive, name);
        }
    }
}

/// What the last line with this name says.
pub open spec fn last_said(fields: Seq<FieldView>, name: Seq<u8>) -> Option<(Seq<u8>, bool)> {
    let all = said(fields, name);
    if all.len() == 0 {
        None
    } else {
        Some(all.last())
    }
}

/// The pseudo-header fields of a section that is accepted are those that were received: a status
/// is the number that its digits spell, a method is the method, a protocol the one that is
/// spelled, and scheme, authority and path are what they parse to. What was not received is not
/// there.
pub proof fn received_pseudo_fields_are_kept(fields: Seq<FieldView>)
    requires
        parsed_section(fields) is Ok,
    ensures
        ({
            let pseudo = parsed_section(fields)->Ok_0.pseudo;
            &&& pseudo.method == match last_said(fields, METHOD@) {
                Some((value, _)) => Some(value),
                None => None,
            }
            &&& pseudo.scheme == match last_said(fields, SCHEME@) {
                Some((value, _)) => super::fields::parsed_scheme(value),
                None => None,
            }
            &&& pseudo.authority == match last_said(fields, AUTHORITY@) {
                Some((value, _)) => super::fields::parsed_authority(value),
                None => None,
            }
            &&& pseudo.path == match last_said(fields, PATH@) {
                Some((value, _)) => super::fields::parsed_path(value),
                None => None,
            }
            &&& pseudo.status == match last_said(fields, STATUS@) {
                Some((value, _)) => status_spec(value),
                None => None,
            }
            &&& pseudo.protocol == match last_said(fields, PROTOCOL@) {
                Some((value, _)) => crate::ext::parsed_protocol(value),
                None => None,
            }
            &&& pseudo.order is None
            &&& forall|id: PseudoId| #[trigger]
                marked(pseudo.sensitive, id) == match last_said(fields, pseudo_name(id)) {
                    Some((_, sensitive)) => sensitive,
                    None => false,
                }
        }),
    decreases fields.len(),
{
    lemma_pseudo_names(PseudoId::Method, PseudoId::Scheme);
    lemma_pseudo_names(PseudoId::Method, PseudoId::Status);
    lemma_pseudo_names(PseudoId::Scheme, PseudoId::Status);
    lemma_pseudo_names(PseudoId::Authority, PseudoId::Path);
    lemma_pseudo_names(PseudoId::Path, PseudoId::Protocol);
    assert(METHOD@.len() == 7 && SCHEME@.len() == 7 && STATUS@.len() == 7 && AUTHORITY@.len() == 10
        && PATH@.len() == 5 && PROTOCOL@.len() == 9);
    if fields.len() == 0 {
        super::pseudo::lemma_unmarked();
    } else {
        let before = fields.drop_last();
        let line = fields.last();
        received_pseudo_fields_are_kept(before);
        let header = parsed_section(before)->Ok_0;
        let read = parsed_field(line.name, line.value)->Ok_0;
        let pseudo = parsed_section(fields)->Ok_0.pseudo;
        if !(read is Header) {
            let id = super::headers::id_of(read);
            lemma_mask_with(header.pseudo.sensitive, id, line.sensitive);
            assert(line.name == pseudo_name(id));
            assert forall|other: PseudoId| #[trigger]
                marked(pseudo.sensitive, other) == match last_said(fields, pseudo_name(other)) {
                    Some((_, sensitive)) => sensitive,
                    None => false,
                } by {
                lemma_pseudo_names(other, id);
                assert(marked(header.pseudo.sensitive, other) == match last_said(
                    before,
                    pseudo_name(other),
                ) {
                    Some((_, sensitive)) => sensitive,
                    None => false,
                });
            }
        } else {
            assert(!is_pseudo_name(line.name));
            assert forall|other: PseudoId| #[trigger]
                marked(pseudo.sensitive, other) == match last_said(fields, pseudo_name(other)) {
                    Some((_, sensitive)) => sensitive,
                    None => false,
                } by {
                lemma_pseudo_names(other, other);
                assert(marked(header.pseudo.sensitive, other) == match last_said(
                    before,
                    pseudo_name(other),
                ) {
                    Some((_, sensitive)) => sensitive,
                    None => false,
                });
            }
        }
    }
}

/// Whether a line may stand in a section: a regular field needs a name and a value that are
/// valid, and a pseudo-header field has to be one that is known, with a value that can be read.
pub open spec fn acceptable_line(line: FieldView) -> bool {
    if !is_pseudo_name(line.name) {
        valid_name(line.name) && valid_value(line.value)
    } else {
        ||| line.name == METHOD@ && valid_method(line.value)
        ||| line.name == SCHEME@ && super::fields::parsed_scheme(line.value) is Some
        ||| line.name == AUTHORITY@ && super::fields::parsed_authority(line.value) is Some
        ||| line.name == PATH@ && super::fields::parsed_path(line.value) is Some
        ||| line.name == STATUS@ && status_spec(line.value) is Some
        ||| line.name == PROTOCOL@ && crate::ext::parsed_protocol(line.value) is Some
    }
}

/// A section is accepted exactly where each of its lines may stand in one, and is refused for
/// the first that may not: for its name, or for its value.
///
/// See <https://www.rfc-editor.org/rfc/rfc9114.html#section-10.3>.
pub proof fn sections_are_accepted_line_by_line(fields: Seq<FieldView>, n: int)
    ensures
        (forall|i: int| 0 <= i < fields.len() ==> acceptable_line(#[trigger] fields[i]))
            ==> parsed_section(fields) is Ok,
        0 <= n < fields.len() && !acceptable_line(fields[n]) && (forall|i: int|
            0 <= i < n ==> acceptable_line(#[trigger] fields[i])) ==> {
            ||| parsed_section(fields) == Err::<HeaderView, HeaderErrorView>(
                HeaderErrorView::InvalidHeaderName(fields[n].name),
            )
            ||| parsed_section(fields) == Err::<HeaderView, HeaderErrorView>(
                HeaderErrorView::InvalidHeaderValue(fields[n].name, fields[n].value),
            )
        },
    decreases fields.len(),
{
    lemma_pseudo_names(PseudoId::Method, PseudoId::Scheme);
    lemma_pseudo_names(PseudoId::Method, PseudoId::Status);
    lemma_pseudo_names(PseudoId::Scheme, PseudoId::Status);
    assert(METHOD@.len() == 7 && SCHEME@.len() == 7 && STATUS@.len() == 7 && AUTHORITY@.len() == 10
        && PATH@.len() == 5 && PROTOCOL@.len() == 9);
    if fields.len() > 0 {
        let before = fields.drop_last();
        sections_are_accepted_line_by_line(before, n);
        assert forall|i: int| 0 <= i < before.len() implies before[i] == fields[i] by {}
        assert(fields.last() == fields[fields.len() - 1]);
    }
}

/// A request is received as it was sent: the section is accepted, and it has the method, the
/// target, the protocol and the fields that the request had.
pub proof fn requests_are_received_as_sent(
    method: Seq<u8>,
    target: TargetView,
    ext: MessageExtensions,
    entries: Seq<(Seq<u8>, Seq<u8>, bool)>,
)
    requires
        readable(request_pseudo(method, target, ext)),
        sendable(entries),
    ensures
        ({
            let received = parsed_section(
                section_fields(request_pseudo(method, target, ext), entries),
            );
            let pseudo = received->Ok_0.pseudo;
            let plain_connect = method == CONNECT@ && ext.protocol is None;
            &&& received is Ok
            &&& received->Ok_0.fields == entries
            &&& pseudo.method == Some(method)
            &&& pseudo.authority == target.authority
            &&& target.scheme is Some && !plain_connect ==> pseudo.scheme == target.scheme
            &&& target.path is Some && !plain_connect ==> pseudo.path == target.path
            &&& plain_connect ==> pseudo.scheme is None && pseudo.path is None
            &&& method == CONNECT@ ==> pseudo.protocol == ext.protocol
            &&& pseudo.status is None
        }),
{
    let sent = request_pseudo(method, target, ext);
    section_is_received_as_sent(sent, entries);
    let pseudo = parsed_section(section_fields(sent, entries))->Ok_0.pseudo;
    assert(pseudo_field(pseudo, PseudoId::Method) == pseudo_field(sent, PseudoId::Method));
    assert(pseudo_field(pseudo, PseudoId::Scheme) == pseudo_field(sent, PseudoId::Scheme));
    assert(pseudo_field(pseudo, PseudoId::Authority) == pseudo_field(sent, PseudoId::Authority));
    assert(pseudo_field(pseudo, PseudoId::Path) == pseudo_field(sent, PseudoId::Path));
    assert(pseudo_field(pseudo, PseudoId::Protocol) == pseudo_field(sent, PseudoId::Protocol));
    assert(pseudo_field(pseudo, PseudoId::Status) == pseudo_field(sent, PseudoId::Status));
    if let Some(protocol) = pseudo.protocol {
        crate::ext::protocol_round_trip(protocol);
    }
    if let Some(protocol) = sent.protocol {
        crate::ext::protocol_round_trip(protocol);
    }
}

/// A response is received as it was sent: with its status and all of its fields.
pub proof fn responses_are_received_as_sent(
    status: u16,
    ext: MessageExtensions,
    entries: Seq<(Seq<u8>, Seq<u8>, bool)>,
)
    requires
        100 <= status <= 999,
        sendable(entries),
    ensures
        ({
            let received = parsed_section(section_fields(response_pseudo(status, ext), entries));
            &&& received is Ok
            &&& received->Ok_0.fields == entries
            &&& received->Ok_0.pseudo.status == Some(status)
            &&& received->Ok_0.pseudo.method is None
            &&& received->Ok_0.pseudo.scheme is None
            &&& received->Ok_0.pseudo.authority is None
            &&& received->Ok_0.pseudo.path is None
            &&& received->Ok_0.pseudo.protocol is None
        }),
{
    let sent = response_pseudo(status, ext);
    let fields = section_fields(sent, entries);
    section_is_received_as_sent(sent, entries);
    received_pseudo_fields_are_kept(fields);
    let name = Seq::<u8>::empty();
    responses_say_what_they_are(status, ext, entries, PseudoId::Method, name);
    responses_say_what_they_are(status, ext, entries, PseudoId::Scheme, name);
    responses_say_what_they_are(status, ext, entries, PseudoId::Authority, name);
    responses_say_what_they_are(status, ext, entries, PseudoId::Path, name);
    responses_say_what_they_are(status, ext, entries, PseudoId::Protocol, name);
}

/// The target of a request that was received is built from what it names: its path and scheme,
/// and its authority, which `:authority` and `host` have to agree on where both are there; with
/// neither, the request is refused. Its method is its method.
///
/// See <https://www.rfc-editor.org/rfc/rfc9114.html#section-4.3.1>.
pub proof fn targets_are_what_requests_name(
    header: HeaderView,
    authority: Seq<u8>,
    other: Seq<u8>,
    method: Seq<u8>,
    built: (Option<Seq<u8>>, Option<Seq<u8>>, Option<Seq<u8>>),
)
    ensures
        named_authority(Some(authority), None) == Ok::<Seq<u8>, HeaderErrorView>(authority),
        named_authority(None, Some(authority)) == Ok::<Seq<u8>, HeaderErrorView>(authority),
        named_authority(Some(authority), Some(authority)) == Ok::<Seq<u8>, HeaderErrorView>(
            authority,
        ),
        authority != other ==> named_authority(Some(authority), Some(other)) == Err::<
            Seq<u8>,
            HeaderErrorView,
        >(HeaderErrorView::ContradictedAuthority),
        named_authority(None, None) == Err::<Seq<u8>, HeaderErrorView>(
            HeaderErrorView::MissingAuthority,
        ),
        header.pseudo.method == Some(method) ==> request_result(header, Ok(built)) == Ok::<
            (Seq<u8>, TargetView),
            HeaderErrorView,
        >((method, TargetView { scheme: built.0, authority: built.1, path: built.2 })),
        header.pseudo.method is None ==> request_result(header, Ok(built)) == Err::<
            (Seq<u8>, TargetView),
            HeaderErrorView,
        >(HeaderErrorView::MissingMethod),
{
}

/// The value of a field is that of the first with its name.
pub proof fn values_are_looked_up(entries: Seq<(Seq<u8>, Seq<u8>, bool)>, name: Seq<u8>, i: int)
    ensures
        0 <= i < entries.len() && entries[i].0 == name && (forall|j: int|
            0 <= j < i ==> (#[trigger] entries[j]).0 != name) ==> first_value(entries, name) == Some(
            entries[i].1,
        ),
        (forall|j: int| 0 <= j < entries.len() ==> (#[trigger] entries[j]).0 != name)
            ==> first_value(entries, name) is None,
    decreases entries.len(),
{
    if entries.len() > 0 {
        let rest = entries.skip(1);
        values_are_looked_up(rest, name, i - 1);
        assert forall|j: int| 0 <= j < rest.len() implies #[trigger] rest[j] == entries[j + 1] by {}
        if i > 0 && 0 <= i < entries.len() {
            assert(rest[i - 1] == entries[i]);
        }
    }
}

} // verus!
