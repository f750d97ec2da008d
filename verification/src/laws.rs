//! What holds of every document and of every element: the laws that follow
//! from the contracts, each one proved.

use vstd::prelude::*;
use crate::model::{AttributeView, ConfigErrorView, DlsIpView, RjsView, XmlDataView, XmlEventView};
use crate::model::ErrorView;
use crate::path::{CAPACITY, PathView, any_named, empty_path, entered, joined, left, location_of};
use crate::records::{accepted, dlsip_from, find_value, has_key, rjs_from};
use crate::values::{all_digits, ip_of_text, ip_type_name, port_type_name, port_value, u16_failure, digits_value};
use crate::walker::{Reading, WalkerView, complete, is_last, start, step, walk};

verus! {

/// An element that the walk reads is well-formed: its builder succeeds.
/// Every other event is well-formed as it is.
pub open spec fn well_formed(event: XmlEventView) -> bool {
    match event {
        XmlEventView::Empty { name, attrs } => {
            &&& name == "rjs"@ ==> rjs_from(accepted(attrs)) is Ok
            &&& name == "dlsip"@ ==> dlsip_from(accepted(attrs)) is Ok
        },
        _ => true,
    }
}

/// The endpoints that the self-closing `rjs` elements among the readings
/// describe, in the order of the readings.
pub open spec fn rjs_records(readings: Seq<Reading>) -> Seq<RjsView>
    decreases readings.len(),
{
    if readings.len() == 0 {
        Seq::empty()
    } else {
        let rest = rjs_records(readings.skip(1));
        match readings[0] {
            Ok(XmlEventView::Empty { name, attrs }) => if name == "rjs"@ && rjs_from(
                accepted(attrs),
            ) is Ok {
                seq![rjs_from(accepted(attrs))->Ok_0] + rest
            } else {
                rest
            },
            _ => rest,
        }
    }
}

/// The entries that the self-closing `dlsip` elements among the readings
/// describe, in the order of the readings.
pub open spec fn dlsip_records(readings: Seq<Reading>) -> Seq<DlsIpView>
    decreases readings.len(),
{
    if readings.len() == 0 {
        Seq::empty()
    } else {
        let rest = dlsip_records(readings.skip(1));
        match readings[0] {
            Ok(XmlEventView::Empty { name, attrs }) => if name == "dlsip"@ && dlsip_from(
                accepted(attrs),
            ) is Ok {
                seq![dlsip_from(accepted(attrs))->Ok_0] + rest
            } else {
                rest
            },
            _ => rest,
        }
    }
}

/// The two element names that the walk reads are different names.
pub proof fn lemma_element_names_differ()
    ensures
        "rjs"@ != "dlsip"@,
{
    reveal_strlit("rjs");
    reveal_strlit("dlsip");
    assert("rjs"@.len() == 3);
    assert("dlsip"@.len() == 5);
}

/// A document whose markup the reader accepts to its end and whose `rjs` and
/// `dlsip` elements are all well-formed is read with success: the result
/// holds one record for each of these elements, each kind in the order of the
/// document, after the records that the walk held before. How the two kinds
/// are interleaved plays no part.
pub proof fn law_well_formed_document(w: WalkerView, readings: Seq<Reading>)
    requires
        complete(readings),
        forall|i: int| 0 <= i < readings.len() ==> (#[trigger] readings[i]) is Ok && well_formed(
            readings[i]->Ok_0,
        ),
    ensures
        walk(w, readings) == Ok::<XmlDataView, ErrorView>(
            XmlDataView {
                rjss: w.data.rjss + rjs_records(readings),
                diagnet: w.data.diagnet + dlsip_records(readings),
            },
        ),
    decreases readings.len(),
{
    lemma_element_names_differ();
    let first = readings[0];
    let rest = readings.skip(1);
    assert(first is Ok && well_formed(first->Ok_0));
    let event = first->Ok_0;
    if readings.len() == 1 {
        assert(is_last(readings.last()));
        assert(event is Eof);
        assert(rest.len() == 0);
        assert(rjs_records(rest) =~= Seq::empty());
        assert(dlsip_records(rest) =~= Seq::empty());
        assert(w.data.rjss + rjs_records(readings) =~= w.data.rjss);
        assert(w.data.diagnet + dlsip_records(readings) =~= w.data.diagnet);
    } else {
        assert(!is_last(first));
        assert(step(w, event) is Ok);
        let next = step(w, event)->Ok_0;
        assert(complete(rest)) by {
            assert(rest.last() == readings.last());
            assert forall|i: int| 0 <= i < rest.len() - 1 implies !is_last(#[trigger] rest[i]) by {
                assert(rest[i] == readings[i + 1]);
            }
        }
        assert forall|i: int| 0 <= i < rest.len() implies (#[trigger] rest[i]) is Ok && well_formed(
            rest[i]->Ok_0,
        ) by {
            assert(rest[i] == readings[i + 1]);
        }
        law_well_formed_document(next, rest);
        assert(next.data.rjss + rjs_records(rest) =~= w.data.rjss + rjs_records(readings));
        assert(next.data.diagnet + dlsip_records(rest) =~= w.data.diagnet + dlsip_records(
            readings,
        ));
    }
}

/// The attributes that an endpoint needs.
pub open spec fn is_rjs_attribute(name: Seq<char>) -> bool {
    name == "prejezd"@ || name == "ip"@ || name == "port"@ || name == "type"@
}

/// `attrs` is `full` without the attribute `name`: that key is gone, every
/// other key is found as before.
pub open spec fn without(attrs: Seq<AttributeView>, full: Seq<AttributeView>, name: Seq<char>) -> bool {
    &&& !has_key(attrs, name)
    &&& forall|other: Seq<char>|
        other != name ==> #[trigger] find_value(attrs, other) == find_value(full, other)
}

/// The attribute names that the builders read are different names.
pub proof fn lemma_attribute_names_differ()
    ensures
        "prejezd"@ != "ip"@,
        "prejezd"@ != "port"@,
        "prejezd"@ != "type"@,
        "ip"@ != "port"@,
        "ip"@ != "type"@,
        "port"@ != "type"@,
        "source"@ != "connection"@,
        "source"@ != "alias"@,
        "source"@ != "ip"@,
        "connection"@ != "alias"@,
{
    reveal_strlit("prejezd");
    reveal_strlit("ip");
    reveal_strlit("port");
    reveal_strlit("type");
    reveal_strlit("source");
    reveal_strlit("connection");
    reveal_strlit("alias");
    assert("prejezd"@.len() == 7);
    assert("ip"@.len() == 2);
    assert("port"@.len() == 4);
    assert("type"@.len() == 4);
    assert("source"@.len() == 6);
    assert("connection"@.len() == 10);
    assert("alias"@.len() == 5);
    assert("port"@[0] == 'p');
    assert("type"@[0] == 't');
}

/// A well-formed endpoint element from which one of its four attributes is
/// taken away is refused, and the error names that attribute as missing.
pub proof fn law_rjs_attribute_removed(
    full: Seq<AttributeView>,
    attrs: Seq<AttributeView>,
    name: Seq<char>,
)
    requires
        rjs_from(full) is Ok,
        is_rjs_attribute(name),
        without(attrs, full, name),
    ensures
        rjs_from(attrs) == Err::<RjsView, ConfigErrorView>(
            ConfigErrorView::MissingAttribute { name },
        ),
{
    lemma_attribute_names_differ();
    assert(find_value(attrs, name) is None);
    if name != "prejezd"@ {
        assert(find_value(attrs, "prejezd"@) == find_value(full, "prejezd"@));
    }
    if name != "ip"@ {
        assert(find_value(attrs, "ip"@) == find_value(full, "ip"@));
    }
    if name != "port"@ {
        assert(find_value(attrs, "port"@) == find_value(full, "port"@));
    }
    if name != "type"@ {
        assert(find_value(attrs, "type"@) == find_value(full, "type"@));
    }
}

/// The attributes that a well-formed diagnostic-network entry needs: the
/// source, and what the variant that the source selects reads.
pub open spec fn is_dlsip_attribute(full: Seq<AttributeView>, name: Seq<char>) -> bool {
    ||| name == "source"@
    ||| find_value(full, "source"@) == Some("HOSTS"@) && (name == "connection"@ || name
        == "alias"@)
    ||| find_value(full, "source"@) == Some("STATIC"@) && name == "ip"@
}

/// A well-formed diagnostic-network element from which one of the attributes
/// that its variant needs is taken away is refused, and the error names that
/// attribute as missing.
pub proof fn law_dlsip_attribute_removed(
    full: Seq<AttributeView>,
    attrs: Seq<AttributeView>,
    name: Seq<char>,
)
    requires
        dlsip_from(full) is Ok,
        is_dlsip_attribute(full, name),
        without(attrs, full, name),
    ensures
        dlsip_from(attrs) == Err::<DlsIpView, ConfigErrorView>(
            ConfigErrorView::MissingAttribute { name },
        ),
{
    lemma_attribute_names_differ();
    reveal_strlit("HOSTS");
    reveal_strlit("STATIC");
    assert("HOSTS"@.len() == 5);
    assert("STATIC"@.len() == 6);
    assert(find_value(attrs, name) is None);
    if name != "source"@ {
        assert(find_value(attrs, "source"@) == find_value(full, "source"@));
        if name != "connection"@ {
            assert(find_value(attrs, "connection"@) == find_value(full, "connection"@));
        }
        if name != "alias"@ {
            assert(find_value(attrs, "alias"@) == find_value(full, "alias"@));
        }
        if name != "ip"@ {
            assert(find_value(attrs, "ip"@) == find_value(full, "ip"@));
        }
    }
}

/// The tracker after elements of the given names were entered one inside the
/// other, outermost first, with nothing open before.
pub open spec fn nested(names: Seq<Seq<char>>) -> PathView
    decreases names.len(),
{
    if names.len() == 0 {
        empty_path()
    } else {
        entered(nested(names.drop_last()), names.last())
    }
}

/// The names with "/" between them.
pub open spec fn chain(names: Seq<Seq<char>>) -> Seq<char>
    decreases names.len(),
{
    if names.len() == 0 {
        Seq::empty()
    } else if names.len() == 1 {
        names[0]
    } else {
        chain(names.drop_last()) + "/"@ + names.last()
    }
}

/// How many of the open elements a tracker remembers by name.
pub open spec fn remembered(count: nat) -> int {
    if count < CAPACITY {
        count as int
    } else {
        CAPACITY as int
    }
}

/// After entering elements one inside the other, the tracker remembers the
/// outermost of them, as many as its capacity allows, each at its level.
pub proof fn lemma_nested_shape(names: Seq<Seq<char>>)
    ensures
        nested(names).depth == if names.len() < usize::MAX {
            names.len()
        } else {
            usize::MAX as nat
        },
        nested(names).slots.len() == CAPACITY,
        forall|i: int|
            0 <= i < CAPACITY ==> #[trigger] nested(names).slots[i] == if i < names.len() {
                Some(names[i])
            } else {
                None
            },
    decreases names.len(),
{
    if names.len() > 0 {
        lemma_nested_shape(names.drop_last());
        let before = nested(names.drop_last());
        assert forall|i: int| 0 <= i < CAPACITY implies #[trigger] nested(names).slots[i] == if i
            < names.len() {
            Some(names[i])
        } else {
            None
        } by {
            if i < names.len() - 1 {
                assert(before.slots[i] == Some(names.drop_last()[i]));
            } else {
                assert(before.slots[i] == None::<Seq<char>>);
            }
        }
    }
}

/// Levels of which the first `k` hold the first `k` names, and the others
/// nothing, join to the chain of those names.
proof fn lemma_joined_is_chain(slots: Seq<Option<Seq<char>>>, names: Seq<Seq<char>>, k: int)
    requires
        0 <= k <= names.len(),
        forall|i: int|
            0 <= i < slots.len() ==> #[trigger] slots[i] == if i < k {
                Some(names[i])
            } else {
                None
            },
    ensures
        joined(slots) == chain(names.take(if k < slots.len() { k } else { slots.len() as int })),
    decreases slots.len(),
{
    let n = slots.len() as int;
    if n > 0 {
        let front = slots.drop_last();
        assert forall|i: int| 0 <= i < front.len() implies #[trigger] front[i] == if i < k {
            Some(names[i])
        } else {
            None
        } by {
            assert(front[i] == slots[i]);
        }
        lemma_joined_is_chain(front, names, k);
        assert(slots.last() == slots[n - 1]);
        if n - 1 < k {
            assert(names.take(n).drop_last() =~= names.take(n - 1));
            assert(names.take(n).last() == names[n - 1]);
            if n - 1 > 0 {
                assert(front[0] is Some);
                assert(any_named(front));
            } else {
                assert(!any_named(front));
                assert(names.take(1)[0] == names[0]);
            }
        } else {
            assert(slots.last() == None::<Seq<char>>);
        }
    } else {
        assert(names.take(0).len() == 0);
    }
}

/// The location is the chain of the open elements, outermost first, joined by
/// "/". Of elements nested deeper than the tracker's capacity the outermost
/// ones are reported and the others left out.
pub proof fn law_location_is_ancestor_chain(names: Seq<Seq<char>>)
    ensures
        location_of(nested(names)) == chain(names.take(remembered(names.len()))),
{
    lemma_nested_shape(names);
    let k = remembered(names.len());
    lemma_joined_is_chain(nested(names).slots, names, k);
}

/// The error of the builder that a failing element's name selects.
pub open spec fn element_failure(name: Seq<char>, places: Seq<Option<AttributeView>>) -> ConfigErrorView {
    if name == "rjs"@ {
        rjs_from(accepted(places))->Err_0
    } else {
        dlsip_from(accepted(places))->Err_0
    }
}

/// The chain of the open elements `names` down to and including an element
/// of the given name, as far as the tracker's capacity reaches.
pub open spec fn chain_to(names: Seq<Seq<char>>, name: Seq<char>) -> Seq<char> {
    chain(names.push(name).take(remembered(names.len() + 1)))
}

/// A self-closing `rjs` or `dlsip` element whose builder fails, met inside
/// the open elements `names`, ends the walk with the builder's error, and the
/// location is the chain of those elements down to and including the element
/// itself, as far as the tracker's capacity reaches.
pub proof fn law_failure_is_located(
    w: WalkerView,
    names: Seq<Seq<char>>,
    name: Seq<char>,
    places: Seq<Option<AttributeView>>,
)
    requires
        w.path == nested(names),
        !well_formed(XmlEventView::Empty { name, attrs: places }),
    ensures
        step(w, XmlEventView::Empty { name, attrs: places }) == Err::<WalkerView, ErrorView>(
            ErrorView::ConfigError {
                error: element_failure(name, places),
                location: chain_to(names, name),
            },
        ),
        names.len() < CAPACITY ==> chain_to(names, name) == chain(names.push(name)),
{
    lemma_element_names_differ();
    let inside = names.push(name);
    assert(inside.drop_last() =~= names);
    assert(nested(inside) == entered(w.path, name));
    law_location_is_ancestor_chain(inside);
    if names.len() < CAPACITY {
        assert(inside.take(inside.len() as int) =~= inside);
    }
}

/// No opening or closing of an element, at whatever depth, fails a walk.
pub proof fn law_nesting_never_fails(w: WalkerView, event: XmlEventView)
    requires
        event is Start || event is End || event is Eof || event is Other,
    ensures
        step(w, event) is Ok,
        step(w, event)->Ok_0.data == w.data,
{
}

/// Digits that write a number above 65535 are no port: the error reports the
/// text as it stood and the port's type.
pub proof fn law_port_out_of_range(text: Seq<char>)
    requires
        text.len() > 0,
        all_digits(text),
        digits_value(text) > u16::MAX,
    ensures
        port_value(text) == Err::<u16, ConfigErrorView>(
            ConfigErrorView::ParseError {
                input: text,
                to: port_type_name(),
                cause: u16_failure(text),
            },
        ),
{
    assert('0' <= text[0] <= '9');
}

/// A static entry's address is read as the address parser reads its text: an
/// address that parses is the entry's address, in either version's form, and
/// one that does not is reported with the text and the address type.
pub proof fn law_static_address(attrs: Seq<AttributeView>, text: Seq<char>)
    requires
        find_value(attrs, "source"@) == Some("STATIC"@),
        find_value(attrs, "ip"@) == Some(text),
    ensures
        dlsip_from(attrs) == match ip_of_text(text) {
            Ok(ip) => Ok::<DlsIpView, ConfigErrorView>(DlsIpView::Static { ip }),
            Err(cause) => Err(
                ConfigErrorView::ParseError { input: text, to: ip_type_name(), cause },
            ),
        },
{
    reveal_strlit("HOSTS");
    reveal_strlit("STATIC");
    assert("HOSTS"@.len() == 5);
    assert("STATIC"@.len() == 6);
}

/// An endpoint's address is read as the address parser reads its text: with
/// the other attributes in order, an address that parses is the endpoint's
/// address, and one that does not is reported with the text and the address
/// type.
pub proof fn law_rjs_address(attrs: Seq<AttributeView>, text: Seq<char>)
    requires
        find_value(attrs, "prejezd"@) is Some,
        find_value(attrs, "ip"@) == Some(text),
    ensures
        match ip_of_text(text) {
            Ok(ip) => rjs_from(attrs) is Ok ==> rjs_from(attrs)->Ok_0.ip == ip,
            Err(cause) => rjs_from(attrs) == Err::<RjsView, ConfigErrorView>(
                ConfigErrorView::ParseError { input: text, to: ip_type_name(), cause },
            ),
        },
{
}

/// An unknown source or connection is refused with the attribute's name and
/// the value as it stood.
pub proof fn law_unknown_variant(attrs: Seq<AttributeView>, source: Seq<char>)
    requires
        find_value(attrs, "source"@) == Some(source),
    ensures
        source != "HOSTS"@ && source != "STATIC"@ ==> dlsip_from(attrs) == Err::<
            DlsIpView,
            ConfigErrorView,
        >(ConfigErrorView::InvalidValue { name: "source"@, value: source }),
        source == "HOSTS"@ ==> forall|value: Seq<char>|
            find_value(attrs, "connection"@) == Some(value) && value != "P2P"@ && value
                != "BROADCAST"@ ==> dlsip_from(attrs) == Err::<DlsIpView, ConfigErrorView>(
                ConfigErrorView::InvalidValue { name: "connection"@, value },
            ),
{
}

/// The readings before place `i` are events that the walk passes: none ends
/// the document, and every element among them is well-formed.
pub open spec fn passes_before(readings: Seq<Reading>, i: int) -> bool {
    forall|j: int|
        0 <= j < i ==> {
            &&& (#[trigger] readings[j]) is Ok
            &&& !(readings[j]->Ok_0 is Eof)
            &&& well_formed(readings[j]->Ok_0)
        }
}

/// The first failure of the reader ends the walk: the result is that error,
/// and none of the records found before it.
pub proof fn law_syntax_error_ends_walk(w: WalkerView, readings: Seq<Reading>, i: int)
    requires
        0 <= i < readings.len(),
        passes_before(readings, i),
        readings[i] is Err,
    ensures
        walk(w, readings) == Err::<XmlDataView, ErrorView>(
            ErrorView::XmlError(readings[i]->Err_0),
        ),
    decreases i,
{
    if i > 0 {
        lemma_element_names_differ();
        let rest = readings.skip(1);
        assert(readings[0] is Ok && well_formed(readings[0]->Ok_0));
        let next = step(w, readings[0]->Ok_0)->Ok_0;
        assert forall|j: int| 0 <= j < i - 1 implies {
            &&& (#[trigger] rest[j]) is Ok
            &&& !(rest[j]->Ok_0 is Eof)
            &&& well_formed(rest[j]->Ok_0)
        } by {
            assert(rest[j] == readings[j + 1]);
        }
        assert(rest[i - 1] == readings[i]);
        law_syntax_error_ends_walk(next, rest, i - 1);
    }
}

/// The elements that are open after the given readings, outermost first,
/// when `names` were open before them: an opening adds its name, a closing
/// takes the innermost away, and nothing else changes them.
pub open spec fn open_after(names: Seq<Seq<char>>, readings: Seq<Reading>) -> Seq<Seq<char>>
    decreases readings.len(),
{
    if readings.len() == 0 {
        names
    } else {
        open_after(opened(names, readings[0]), readings.skip(1))
    }
}

/// The open elements after one reading.
pub open spec fn opened(names: Seq<Seq<char>>, reading: Reading) -> Seq<Seq<char>> {
    match reading {
        Ok(XmlEventView::Start { name }) => names.push(name),
        Ok(XmlEventView::End) => if names.len() > 0 {
            names.drop_last()
        } else {
            names
        },
        _ => names,
    }
}

/// Leaving the innermost of the open elements gives the tracker of the
/// others.
pub proof fn lemma_left_nested(names: Seq<Seq<char>>)
    requires
        0 < names.len() <= usize::MAX,
    ensures
        left(nested(names)) == nested(names.drop_last()),
{
    let front = names.drop_last();
    lemma_nested_shape(front);
    lemma_nested_shape(names);
    assert(left(nested(names)).slots =~= nested(front).slots);
}

/// An event that the walk passes leaves the tracker at the elements that are
/// open after it.
pub proof fn lemma_step_follows_open(w: WalkerView, names: Seq<Seq<char>>, event: XmlEventView)
    requires
        w.path == nested(names),
        names.len() < usize::MAX,
        !(event is Eof),
        well_formed(event),
    ensures
        step(w, event) is Ok,
        step(w, event)->Ok_0.path == nested(opened(names, Ok(event))),
{
    lemma_element_names_differ();
    match event {
        XmlEventView::Start { name } => {
            assert(names.push(name).drop_last() =~= names);
        },
        XmlEventView::End => {
            if names.len() > 0 {
                lemma_left_nested(names);
            }
        },
        XmlEventView::Empty { name, attrs } => {
            let inside = names.push(name);
            assert(inside.drop_last() =~= names);
            assert(nested(inside) == entered(w.path, name));
            lemma_left_nested(inside);
        },
        _ => {},
    }
}

/// The first element that is not well-formed ends the walk. The result is
/// the error of its builder, unchanged, and none of the records found before
/// it. The location is the chain of the elements that are open in the
/// document at that element, root first, down to and including the element
/// itself; with fewer than ten elements open around it that is the whole
/// chain, and with more the outermost ten. The count of the readings before
/// the element fits a machine word, as that of any text in memory does.
pub proof fn law_failing_element_ends_walk(
    w: WalkerView,
    names: Seq<Seq<char>>,
    readings: Seq<Reading>,
    i: int,
)
    requires
        w.path == nested(names),
        0 <= i < readings.len(),
        names.len() + i <= usize::MAX,
        passes_before(readings, i),
        readings[i] is Ok,
        readings[i]->Ok_0 is Empty,
        !well_formed(readings[i]->Ok_0),
    ensures
        walk(w, readings) == Err::<XmlDataView, ErrorView>(
            ErrorView::ConfigError {
                error: element_failure(
                    readings[i]->Ok_0->Empty_name,
                    readings[i]->Ok_0->Empty_attrs,
                ),
                location: chain_to(
                    open_after(names, readings.take(i)),
                    readings[i]->Ok_0->Empty_name,
                ),
            },
        ),
        open_after(names, readings.take(i)).len() < CAPACITY ==> chain_to(
            open_after(names, readings.take(i)),
            readings[i]->Ok_0->Empty_name,
        ) == chain(open_after(names, readings.take(i)).push(readings[i]->Ok_0->Empty_name)),
    decreases i,
{
    if i == 0 {
        assert(readings.take(0).len() == 0);
        law_failure_is_located(
            w,
            names,
            readings[0]->Ok_0->Empty_name,
            readings[0]->Ok_0->Empty_attrs,
        );
    } else {
        let rest = readings.skip(1);
        assert(readings[0] is Ok && well_formed(readings[0]->Ok_0));
        let event = readings[0]->Ok_0;
        lemma_step_follows_open(w, names, event);
        let next = step(w, event)->Ok_0;
        let after = opened(names, readings[0]);
        assert forall|j: int| 0 <= j < i - 1 implies {
            &&& (#[trigger] rest[j]) is Ok
            &&& !(rest[j]->Ok_0 is Eof)
            &&& well_formed(rest[j]->Ok_0)
        } by {
            assert(rest[j] == readings[j + 1]);
        }
        assert(rest[i - 1] == readings[i]);
        assert(readings.take(i).skip(1) =~= rest.take(i - 1));
        assert(readings.take(i)[0] == readings[0]);
        law_failing_element_ends_walk(next, after, rest, i - 1);
    }
}

/// In a document read from its start, the first element that is not
/// well-formed is reported at the chain of the elements open around it.
pub proof fn law_failure_location_in_document(readings: Seq<Reading>, i: int)
    requires
        0 <= i < readings.len(),
        i <= usize::MAX,
        passes_before(readings, i),
        readings[i] is Ok,
        readings[i]->Ok_0 is Empty,
        !well_formed(readings[i]->Ok_0),
    ensures
        walk(start(), readings) == Err::<XmlDataView, ErrorView>(
            ErrorView::ConfigError {
                error: element_failure(
                    readings[i]->Ok_0->Empty_name,
                    readings[i]->Ok_0->Empty_attrs,
                ),
                location: chain_to(
                    open_after(Seq::empty(), readings.take(i)),
                    readings[i]->Ok_0->Empty_name,
                ),
            },
        ),
        open_after(Seq::empty(), readings.take(i)).len() < CAPACITY ==> chain_to(
            open_after(Seq::empty(), readings.take(i)),
            readings[i]->Ok_0->Empty_name,
        ) == chain(
            open_after(Seq::empty(), readings.take(i)).push(readings[i]->Ok_0->Empty_name),
        ),
{
    law_failing_element_ends_walk(start(), Seq::empty(), readings, i);
}

} // verus!
