//! From an element's attributes to a record: the lookup of one attribute and
//! the two builders.

use vstd::prelude::*;
use vstd::string::StringExecFns;
use crate::model::{
    Attribute, AttributeView, ConfigError, ConfigErrorView, Connection, DlsIP, DlsIpView, Rjs,
    RjsView, attributes_view,
};
use crate::values::{ip_value, parse_ip, parse_port, port_value};

verus! {

/// `i` is the place of the first attribute whose key is `name`.
pub open spec fn is_first_match(attrs: Seq<AttributeView>, name: Seq<char>, i: int) -> bool {
    &&& 0 <= i < attrs.len()
    &&& attrs[i].key == name
    &&& forall|j: int| 0 <= j < i ==> (#[trigger] attrs[j]).key != name
}

/// Some attribute has the key `name`.
pub open spec fn has_key(attrs: Seq<AttributeView>, name: Seq<char>) -> bool {
    exists|i: int| 0 <= i < attrs.len() && (#[trigger] attrs[i]).key == name
}

/// The value of the first attribute whose key is `name`, if there is one.
pub open spec fn find_value(attrs: Seq<AttributeView>, name: Seq<char>) -> Option<Seq<char>> {
    if has_key(attrs, name) {
        Some(attrs[choose|i: int| is_first_match(attrs, name, i)].value)
    } else {
        None
    }
}

/// The value of a required attribute, or the error that names it as missing.
pub open spec fn find_required(attrs: Seq<AttributeView>, name: Seq<char>) -> Result<
    Seq<char>,
    ConfigErrorView,
> {
    match find_value(attrs, name) {
        Some(value) => Ok(value),
        None => Err(ConfigErrorView::MissingAttribute { name }),
    }
}

/// The view of a builder's outcome.
pub open spec fn outcome_view<T: View>(r: Result<T, ConfigError>) -> Result<T::V, ConfigErrorView> {
    match r {
        Ok(v) => Ok(v@),
        Err(e) => Err(e@),
    }
}

/// The first match decides: any place that is a first match carries the value
/// that `find_value` gives.
pub proof fn lemma_first_match_is_found(attrs: Seq<AttributeView>, name: Seq<char>, i: int)
    requires
        is_first_match(attrs, name, i),
    ensures
        find_value(attrs, name) == Some(attrs[i].value),
{
    let k = choose|k: int| is_first_match(attrs, name, k);
    assert(is_first_match(attrs, name, k));
    assert(k == i) by {
        if k < i {
            assert(attrs[k].key != name);
        }
        if i < k {
            assert(attrs[i].key != name);
        }
    }
}

/// The attributes that were accepted, in document order: the rejected places
/// are passed over.
pub open spec fn accepted(attrs: Seq<Option<AttributeView>>) -> Seq<AttributeView>
    decreases attrs.len(),
{
    if attrs.len() == 0 {
        Seq::empty()
    } else {
        match attrs.last() {
            Some(a) => accepted(attrs.drop_last()).push(a),
            None => accepted(attrs.drop_last()),
        }
    }
}

/// The accepted attributes of the first `n` places stand first, and in the
/// same order, among the accepted attributes of all places.
pub proof fn lemma_accepted_prefix(attrs: Seq<Option<AttributeView>>, n: int)
    requires
        0 <= n <= attrs.len(),
    ensures
        accepted(attrs.take(n)).len() <= accepted(attrs).len(),
        forall|k: int|
            0 <= k < accepted(attrs.take(n)).len() ==> #[trigger] accepted(attrs)[k] == accepted(
                attrs.take(n),
            )[k],
    decreases attrs.len(),
{
    if n == attrs.len() {
        assert(attrs.take(n) =~= attrs);
    } else {
        let front = attrs.drop_last();
        assert(front.take(n) =~= attrs.take(n));
        lemma_accepted_prefix(front, n);
    }
}

/// Looks an attribute up by its key among the accepted attributes. The first
/// attribute with that key wins; with none the attribute is reported as
/// missing.
pub fn find_attribute(attrs: &Vec<Option<Attribute>>, data: &str) -> (res: Result<
    String,
    ConfigError,
>)
    ensures
        outcome_view(res) == find_required(accepted(attributes_view(attrs@)), data@),
{
    let key = String::from_str(data);
    let ghost view = attributes_view(attrs@);
    let mut i: usize = 0;
    while i < attrs.len()
        invariant
            i <= attrs.len(),
            key@ == data@,
            view == attributes_view(attrs@),
            !has_key(accepted(view.take(i as int)), data@),
        decreases attrs.len() - i,
    {
        let ghost before = accepted(view.take(i as int));
        let ghost upto = view.take(i as int + 1);
        proof {
            assert(upto.drop_last() =~= view.take(i as int));
            assert(upto.last() == view[i as int]);
        }
        match &attrs[i] {
            Some(attr) => {
                proof {
                    assert(view[i as int] == Some(attr@));
                    assert(accepted(upto) == before.push(attr@));
                }
                if attr.key == key {
                    proof {
                        let all = accepted(view);
                        let k = before.len() as int;
                        lemma_accepted_prefix(view, i as int + 1);
                        assert(all[k] == accepted(upto)[k]);
                        assert forall|j: int| 0 <= j < k implies (#[trigger] all[j]).key
                            != data@ by {
                            assert(all[j] == accepted(upto)[j]);
                            assert(before[j].key != data@);
                        }
                        lemma_first_match_is_found(all, data@, k);
                    }
                    return Ok(attr.value.clone());
                }
                proof {
                    if has_key(accepted(upto), data@) {
                        let j = choose|j: int|
                            0 <= j < accepted(upto).len() && (#[trigger] accepted(upto)[j]).key
                                == data@;
                        if j < before.len() {
                            assert(before[j].key == data@);
                        }
                    }
                }
            },
            None => {
                proof {
                    assert(view[i as int] == None::<AttributeView>);
                    assert(accepted(upto) == before);
                }
            },
        }
        i += 1;
    }
    proof {
        assert(view.take(i as int) =~= view);
    }
    Err(ConfigError::MissingAttribute { name: key })
}

/// The endpoint that a set of attributes describes. The attributes are read in
/// the order prejezd, ip, port, type, and the first failure is the result.
pub open spec fn rjs_from(attrs: Seq<AttributeView>) -> Result<RjsView, ConfigErrorView> {
    match find_required(attrs, "prejezd"@) {
        Err(e) => Err(e),
        Ok(prejezd) => match find_required(attrs, "ip"@) {
            Err(e) => Err(e),
            Ok(ip_text) => match ip_value(ip_text) {
                Err(e) => Err(e),
                Ok(ip) => match find_required(attrs, "port"@) {
                    Err(e) => Err(e),
                    Ok(port_text) => match port_value(port_text) {
                        Err(e) => Err(e),
                        Ok(port) => match find_required(attrs, "type"@) {
                            Err(e) => Err(e),
                            Ok(rjs_type) => Ok(RjsView { prejezd, ip, port, rjs_type }),
                        },
                    },
                },
            },
        },
    }
}

/// The connection that an attribute value names.
pub open spec fn connection_of(text: Seq<char>) -> Option<Connection> {
    if text == "P2P"@ {
        Some(Connection::P2P)
    } else if text == "BROADCAST"@ {
        Some(Connection::Broadcast)
    } else {
        None
    }
}

/// The host entry that a set of attributes describes: the connection is read
/// and checked before the alias.
pub open spec fn hosts_from(attrs: Seq<AttributeView>) -> Result<DlsIpView, ConfigErrorView> {
    match find_required(attrs, "connection"@) {
        Err(e) => Err(e),
        Ok(text) => match connection_of(text) {
            None => Err(ConfigErrorView::InvalidValue { name: "connection"@, value: text }),
            Some(connection) => match find_required(attrs, "alias"@) {
                Err(e) => Err(e),
                Ok(alias) => Ok(DlsIpView::Hosts { alias, connection }),
            },
        },
    }
}

/// The static entry that a set of attributes describes.
pub open spec fn static_from(attrs: Seq<AttributeView>) -> Result<DlsIpView, ConfigErrorView> {
    match find_required(attrs, "ip"@) {
        Err(e) => Err(e),
        Ok(text) => match ip_value(text) {
            Err(e) => Err(e),
            Ok(ip) => Ok(DlsIpView::Static { ip }),
        },
    }
}

/// The diagnostic-network entry that a set of attributes describes: the
/// attribute "source" selects the variant.
pub open spec fn dlsip_from(attrs: Seq<AttributeView>) -> Result<DlsIpView, ConfigErrorView> {
    match find_required(attrs, "source"@) {
        Err(e) => Err(e),
        Ok(source) => if source == "HOSTS"@ {
            hosts_from(attrs)
        } else if source == "STATIC"@ {
            static_from(attrs)
        } else {
            Err(ConfigErrorView::InvalidValue { name: "source"@, value: source })
        },
    }
}

/// Whether a text is the given word.
pub(crate) fn is_word(text: &String, word: &str) -> (same: bool)
    ensures
        same == (text@ == word@),
{
    let other = String::from_str(word);
    *text == other
}

impl Rjs {
    /// Builds an endpoint from the attributes of one element, or fails with
    /// the first thing that is wrong with them.
    pub fn from_attributes(attrs: &Vec<Option<Attribute>>) -> (res: Result<Rjs, ConfigError>)
        ensures
            outcome_view(res) == rjs_from(accepted(attributes_view(attrs@))),
    {
        let prejezd = match find_attribute(attrs, "prejezd") {
            Ok(v) => v,
            Err(e) => { return Err(e); },
        };
        let ip_text = match find_attribute(attrs, "ip") {
            Ok(v) => v,
            Err(e) => { return Err(e); },
        };
        let ip = match parse_ip(&ip_text) {
            Ok(v) => v,
            Err(e) => { return Err(e); },
        };
        let port_text = match find_attribute(attrs, "port") {
            Ok(v) => v,
            Err(e) => { return Err(e); },
        };
        let port = match parse_port(&port_text) {
            Ok(v) => v,
            Err(e) => { return Err(e); },
        };
        let rjs_type = match find_attribute(attrs, "type") {
            Ok(v) => v,
            Err(e) => { return Err(e); },
        };
        Ok(Rjs { prejezd, ip, port, rjs_type })
    }
}

impl DlsIP {
    /// Builds a diagnostic-network entry from the attributes of one element,
    /// or fails with the first thing that is wrong with them.
    pub fn from_attributes(attrs: &Vec<Option<Attribute>>) -> (res: Result<DlsIP, ConfigError>)
        ensures
            outcome_view(res) == dlsip_from(accepted(attributes_view(attrs@))),
    {
        let source = match find_attribute(attrs, "source") {
            Ok(v) => v,
            Err(e) => { return Err(e); },
        };
        if is_word(&source, "HOSTS") {
            let text = match find_attribute(attrs, "connection") {
                Ok(v) => v,
                Err(e) => { return Err(e); },
            };
            let connection = if is_word(&text, "P2P") {
                Connection::P2P
            } else if is_word(&text, "BROADCAST") {
                Connection::Broadcast
            } else {
                return Err(
                    ConfigError::InvalidValue { name: String::from_str("connection"), value: text },
                );
            };
            match find_attribute(attrs, "alias") {
                Ok(alias) => Ok(DlsIP::Hosts { alias, connection }),
                Err(e) => Err(e),
            }
        } else if is_word(&source, "STATIC") {
            let text = match find_attribute(attrs, "ip") {
                Ok(v) => v,
                Err(e) => { return Err(e); },
            };
            match parse_ip(&text) {
                Ok(ip) => Ok(DlsIP::Static { ip }),
                Err(e) => Err(e),
            }
        } else {
            Err(ConfigError::InvalidValue { name: String::from_str("source"), value: source })
        }
    }
}

} // verus!
