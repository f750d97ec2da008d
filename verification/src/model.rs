//! The records, the errors and the events of a document, each with the
//! mathematical value that the contracts speak of.

use vstd::prelude::*;
use vstd::string::StringExecFns;

verus! {

/// quick-xml's error type; nothing of its inside is known here.
#[verifier::external_type_specification]
#[verifier::external_body]
pub struct ExXmlError(quick_xml::Error);

/// std's I/O error type; nothing of its inside is known here.
#[verifier::external_type_specification]
#[verifier::external_body]
pub struct ExIoError(std::io::Error);

/// An IP address, version 4 or 6, as its numbers in network order.
#[derive(Debug, Clone, Copy, PartialEq, Eq)]
pub enum IpAddress {
    V4 { octets: [u8; 4] },
    V6 { segments: [u16; 8] },
}

/// How a host pair of the diagnostic network is connected.
#[derive(Debug, Clone, Copy, PartialEq, Eq)]
pub enum Connection {
    P2P,
    Broadcast,
}

/// One railway-crossing endpoint.
#[derive(Debug, Clone, PartialEq, Eq)]
pub struct Rjs {
    pub prejezd: String,
    pub ip: IpAddress,
    pub port: u16,
    pub rjs_type: String,
}

pub ghost struct RjsView {
    pub prejezd: Seq<char>,
    pub ip: IpAddress,
    pub port: u16,
    pub rjs_type: Seq<char>,
}

impl View for Rjs {
    type V = RjsView;

    open spec fn view(&self) -> RjsView {
        RjsView { prejezd: self.prejezd@, ip: self.ip, port: self.port, rjs_type: self.rjs_type@ }
    }
}

/// One entry of the diagnostic network.
#[derive(Debug, Clone, PartialEq, Eq)]
pub enum DlsIP {
    Hosts { alias: String, connection: Connection },
    Static { ip: IpAddress },
}

pub ghost enum DlsIpView {
    Hosts { alias: Seq<char>, connection: Connection },
    Static { ip: IpAddress },
}

impl View for DlsIP {
    type V = DlsIpView;

    open spec fn view(&self) -> DlsIpView {
        match *self {
            DlsIP::Hosts { alias, connection } => DlsIpView::Hosts { alias: alias@, connection },
            DlsIP::Static { ip } => DlsIpView::Static { ip },
        }
    }
}

/// The records of one document, each kind in document order.
#[derive(Debug, Clone, PartialEq, Eq)]
pub struct XmlData {
    pub rjss: Vec<Rjs>,
    pub diagnet: Vec<DlsIP>,
}

pub ghost struct XmlDataView {
    pub rjss: Seq<RjsView>,
    pub diagnet: Seq<DlsIpView>,
}

impl View for XmlData {
    type V = XmlDataView;

    open spec fn view(&self) -> XmlDataView {
        XmlDataView {
            rjss: self.rjss@.map_values(|r: Rjs| r@),
            diagnet: self.diagnet@.map_values(|d: DlsIP| d@),
        }
    }
}

impl Default for XmlData {
    fn default() -> (data: XmlData)
        ensures
            data@ == (XmlDataView { rjss: Seq::empty(), diagnet: Seq::empty() }),
    {
        let data = XmlData { rjss: Vec::new(), diagnet: Vec::new() };
        assert(data@.rjss =~= Seq::empty());
        assert(data@.diagnet =~= Seq::empty());
        data
    }
}

/// What was wrong with an element's attributes.
#[derive(Debug, Clone, PartialEq, Eq)]
pub enum ConfigError {
    ParseError { input: String, to: String, cause: String },
    MissingAttribute { name: String },
    InvalidValue { name: String, value: String },
}

pub ghost enum ConfigErrorView {
    ParseError { input: Seq<char>, to: Seq<char>, cause: Seq<char> },
    MissingAttribute { name: Seq<char> },
    InvalidValue { name: Seq<char>, value: Seq<char> },
}

impl View for ConfigError {
    type V = ConfigErrorView;

    open spec fn view(&self) -> ConfigErrorView {
        match *self {
            ConfigError::ParseError { input, to, cause } => ConfigErrorView::ParseError {
                input: input@,
                to: to@,
                cause: cause@,
            },
            ConfigError::MissingAttribute { name } => ConfigErrorView::MissingAttribute {
                name: name@,
            },
            ConfigError::InvalidValue { name, value } => ConfigErrorView::InvalidValue {
                name: name@,
                value: value@,
            },
        }
    }
}

/// Why a document could not be read.
#[derive(Debug)]
pub enum ReadError {
    IoError(std::io::Error),
    XmlError(quick_xml::Error),
    ConfigError { error: ConfigError, location: String },
}

pub ghost enum ErrorView {
    IoError(std::io::Error),
    XmlError(quick_xml::Error),
    ConfigError { error: ConfigErrorView, location: Seq<char> },
}

impl View for ReadError {
    type V = ErrorView;

    open spec fn view(&self) -> ErrorView {
        match *self {
            ReadError::IoError(e) => ErrorView::IoError(e),
            ReadError::XmlError(e) => ErrorView::XmlError(e),
            ReadError::ConfigError { error, location } => ErrorView::ConfigError {
                error: error@,
                location: location@,
            },
        }
    }
}

/// The location of a configuration error that no walker has stamped yet.
pub open spec fn unknown_location() -> Seq<char> {
    "unknown location"@
}

impl ReadError {
    /// A configuration error whose place in the document is not known yet.
    pub fn from(value: ConfigError) -> (e: ReadError)
        ensures
            e@ == (ErrorView::ConfigError { error: value@, location: unknown_location() }),
    {
        ReadError::ConfigError { error: value, location: String::from_str("unknown location") }
    }
}

/// The mathematical value of a result: that of the record, or that of the error.
pub open spec fn result_view<T: View>(r: Result<T, ReadError>) -> Result<T::V, ErrorView> {
    match r {
        Ok(v) => Ok(v@),
        Err(e) => Err(e@),
    }
}

/// One attribute of an element, as written in the document.
#[derive(Debug, Clone, PartialEq, Eq)]
pub struct Attribute {
    pub key: String,
    pub value: String,
}

pub ghost struct AttributeView {
    pub key: Seq<char>,
    pub value: Seq<char>,
}

impl View for Attribute {
    type V = AttributeView;

    open spec fn view(&self) -> AttributeView {
        AttributeView { key: self.key@, value: self.value@ }
    }
}

/// What stands at one attribute's place: the attribute, or nothing where the
/// markup of that attribute was rejected.
pub open spec fn attribute_view(attr: Option<Attribute>) -> Option<AttributeView> {
    match attr {
        Some(a) => Some(a@),
        None => None,
    }
}

/// What stands at the attribute places of an element, as mathematical values,
/// in document order.
pub open spec fn attributes_view(attrs: Seq<Option<Attribute>>) -> Seq<Option<AttributeView>> {
    attrs.map_values(|a: Option<Attribute>| attribute_view(a))
}

/// One step of a document, as the walker sees it.
#[derive(Debug, Clone, PartialEq, Eq)]
pub enum XmlEvent {
    /// An element opens.
    Start { name: String },
    /// The innermost open element closes.
    End,
    /// A self-closing element, with its attributes in document order; an
    /// attribute whose markup was rejected leaves `None` at its place.
    Empty { name: String, attrs: Vec<Option<Attribute>> },
    /// The document is over.
    Eof,
    /// Text, a comment, a declaration: nothing that the walker reads.
    Other,
}

pub ghost enum XmlEventView {
    Start { name: Seq<char> },
    End,
    Empty { name: Seq<char>, attrs: Seq<Option<AttributeView>> },
    Eof,
    Other,
}

impl View for XmlEvent {
    type V = XmlEventView;

    open spec fn view(&self) -> XmlEventView {
        match *self {
            XmlEvent::Start { name } => XmlEventView::Start { name: name@ },
            XmlEvent::End => XmlEventView::End,
            XmlEvent::Empty { name, attrs } => XmlEventView::Empty {
                name: name@,
                attrs: attributes_view(attrs@),
            },
            XmlEvent::Eof => XmlEventView::Eof,
            XmlEvent::Other => XmlEventView::Other,
        }
    }
}

} // verus!
