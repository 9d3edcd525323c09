//! The boundary to the XML reader: the reader's events, turned into values
//! of this library's own types.

use vstd::prelude::*;

use quick_xml::events::{BytesStart, BytesText, Event};
use quick_xml::name::QName;
use quick_xml::{Error, Reader, Writer};

verus! {

/// An XML event, with names and texts as owned strings.
#[derive(Debug)]
pub enum XmlEvent {
    /// A start tag: its qualified name, its local name, and its attributes
    /// (name and unescaped value), or the error met reading them.
    Start { name: String, local_name: String, attributes: Result<Vec<(String, String)>, String> },
    /// An end tag: its qualified and local names.
    End { name: String, local_name: String },
    /// Character data: as written, and with line ends normalised.
    Text { raw: String, content: String },
    /// A general reference `&name;`: the name.
    GeneralRef(String),
    /// The end of the document.
    Eof,
    /// Anything else (comments, declarations, ...).
    Other,
}

/// An error of the XML reader.
#[derive(Debug)]
pub enum XmlReadError {
    /// The document is not well-formed; reading can go on.
    IllFormed(String),
    /// Any other error; reading cannot go on.
    Fatal(String),
}

#[verifier::external_type_specification]
#[verifier::external_body]
#[verifier::reject_recursive_types(R)]
pub struct ExReader<R>(Reader<R>);

#[verifier::external_type_specification]
#[verifier::external_body]
pub struct ExBytesStart<'a>(BytesStart<'a>);

#[verifier::external_type_specification]
#[verifier::external_body]
pub struct ExBytesText<'a>(BytesText<'a>);

/// A reading operation on the XML reader: the next event, or the text up
/// to the end tag of the given name.
pub enum ReadOp {
    Event,
    Text(Seq<char>),
}

/// The event the reader over `content` gives after the operations `ops`
/// (the reader is configured once and for all by `xml_reader`), as
/// `read_xml_event` returns it.
pub uninterp spec fn xml_event_at(content: Seq<char>, ops: Seq<ReadOp>) -> Result<XmlEvent, XmlReadError>;

/// What `Reader::read_text` for the end tag `name` gives on the reader over
/// `content` after the operations `ops`: the text, or the error's message.
pub uninterp spec fn xml_text_at(content: Seq<char>, ops: Seq<ReadOp>, name: Seq<char>) -> Result<Seq<char>, Seq<char>>;

/// Whether reading the text up to the end tag `name` fails (see
/// `xml_text_at`).
pub open spec fn xml_text_fails(content: Seq<char>, ops: Seq<ReadOp>, name: Seq<char>) -> bool {
    xml_text_at(content, ops, name) is Err
}

/// An XML reader over a text, with the text and the operations made on it
/// so far.
pub struct XmlSource<'a> {
    reader: Reader<&'a [u8]>,
    content: Ghost<Seq<char>>,
    ops: Ghost<Seq<ReadOp>>,
}

impl<'a> XmlSource<'a> {
    /// The text read.
    pub closed spec fn text(&self) -> Seq<char> {
        self.content@
    }

    /// The operations made so far.
    pub closed spec fn history(&self) -> Seq<ReadOp> {
        self.ops@
    }
}

/// `Reader::from_str`, configured to keep whitespace text and to report an
/// empty element as a start and an end tag. Claimed: the reader is over
/// `content` and has read nothing yet.
#[verifier::external_body]
pub(crate) fn xml_reader<'a>(content: &'a str) -> (r: XmlSource<'a>)
    ensures
        r.text() == content@,
        r.history() == Seq::<ReadOp>::empty(),
{
    let mut reader = Reader::from_str(content);
    reader.config_mut().trim_text(false);
    reader.config_mut().expand_empty_elements = true;
    XmlSource { reader, content: Ghost(content@), ops: Ghost(Seq::empty()) }
}

/// `BytesStart::name`, `local_name` and `attributes` without the check for
/// repeated names, as `BytesStart::try_get_attribute` reads them (with
/// `Attribute::unescape_value`): a start tag as an event.
#[verifier::external_body]
fn start_event(e: &BytesStart) -> (r: XmlEvent) {
    let attributes = e
        .attributes()
        .with_checks(false)
        .map(|a| {
            let a = a.map_err(|err| err.to_string())?;
            let value = a.unescape_value().map_err(|err| err.to_string())?;
            Ok((a.key.as_ref().to_string(), value.into_owned()))
        })
        .collect();
    XmlEvent::Start {
        name: e.name().as_ref().to_string(),
        local_name: e.local_name().as_ref().to_string(),
        attributes,
    }
}

/// `BytesText` as written, and `BytesText::xml10_content`.
#[verifier::external_body]
fn text_event(e: &BytesText) -> (r: XmlEvent) {
    XmlEvent::Text { raw: e.to_string(), content: e.xml10_content().into_owned() }
}

/// `Reader::read_event`: the next event. Claimed: the reader reads one
/// more event, and the event is named by `xml_event_at` (the reader is
/// deterministic: its answer depends on the text and the operations made).
#[verifier::external_body]
pub(crate) fn read_xml_event(src: &mut XmlSource) -> (r: Result<XmlEvent, XmlReadError>)
    ensures
        final(src).text() == old(src).text(),
        final(src).history() == old(src).history().push(ReadOp::Event),
        r == xml_event_at(old(src).text(), old(src).history()),
{
    match src.reader.read_event() {
        Ok(Event::Start(e)) => Ok(start_event(&e)),
        Ok(Event::End(e)) => Ok(XmlEvent::End {
            name: e.name().as_ref().to_string(),
            local_name: e.local_name().as_ref().to_string(),
        }),
        Ok(Event::Text(e)) => Ok(text_event(&e)),
        Ok(Event::GeneralRef(e)) => Ok(XmlEvent::GeneralRef(e.to_string())),
        Ok(Event::Eof) => Ok(XmlEvent::Eof),
        Ok(_) => Ok(XmlEvent::Other),
        Err(Error::IllFormed(e)) => Err(XmlReadError::IllFormed(e.to_string())),
        Err(e) => Err(XmlReadError::Fatal(e.to_string())),
    }
}

/// `Reader::read_text`: the text, as written, up to the end tag `name`.
/// Claimed: the reader makes one more operation, and what it gives is
/// named by `xml_text_at` (the reader is deterministic).
#[verifier::external_body]
pub(crate) fn read_element_text(src: &mut XmlSource, name: &str) -> (r: Result<String, String>)
    ensures
        final(src).text() == old(src).text(),
        final(src).history() == old(src).history().push(ReadOp::Text(name@)),
        match r {
            Ok(t) => xml_text_at(old(src).text(), old(src).history(), name@) == Ok::<Seq<char>, Seq<char>>(t@),
            Err(e) => xml_text_at(old(src).text(), old(src).history(), name@) == Err::<Seq<char>, Seq<char>>(e@),
        },
{
    match src.reader.read_text(QName(name)) {
        Ok(text) => Ok(text.to_string()),
        Err(e) => Err(e.to_string()),
    }
}

/// `Reader::error_position`: where the last error was met.
#[verifier::external_body]
pub(crate) fn error_position(src: &XmlSource) -> (r: u64) {
    src.reader.error_position()
}

// ---------------------------------------------------------------------------
// Writing
// ---------------------------------------------------------------------------

/// The content of an element to write.
#[derive(Debug)]
pub enum XmlContent {
    /// None: the element is written as an empty tag.
    Empty,
    /// Text only.
    Text(String),
    /// Child nodes.
    Children(Vec<XmlNode>),
}

/// A node to write: an element with its attributes (in order; with
/// `attr_lines`, every attribute after the first goes on a line of its own
/// in indented output) and content, or text.
#[derive(Debug)]
pub enum XmlNode {
    Element { name: String, attrs: Vec<(String, String)>, attr_lines: bool, content: XmlContent },
    Text(String),
}

#[verifier::external_type_specification]
#[verifier::external_body]
#[verifier::reject_recursive_types(W)]
pub struct ExWriter<W>(Writer<W>);

/// A writing operation: an element (name, attributes, where line breaks go
/// before the attributes, content) or a text.
pub enum WriteOp {
    Element(Seq<char>, Seq<(String, String)>, Seq<bool>, XmlContent),
    Text(Seq<char>),
}

/// The text the XML writer (indenting by two spaces or not) holds after the
/// operations `ops` on a new writer, the children of an element being
/// written by `write_nodes`.
pub uninterp spec fn xml_rendering(indent: bool, ops: Seq<WriteOp>) -> Seq<char>;

/// An XML writer over a byte buffer, with whether it indents and the
/// operations made on it so far.
pub struct XmlSink {
    writer: Writer<Vec<u8>>,
    indent: Ghost<bool>,
    ops: Ghost<Seq<WriteOp>>,
}

impl XmlSink {
    /// Whether the writer indents.
    pub closed spec fn indents(&self) -> bool {
        self.indent@
    }

    /// The operations made so far.
    pub closed spec fn done(&self) -> Seq<WriteOp> {
        self.ops@
    }
}

/// `Writer::new` over a byte buffer: compact output.
#[verifier::external_body]
pub(crate) fn compact_writer() -> (r: XmlSink)
    ensures
        !r.indents(),
        r.done() == Seq::<WriteOp>::empty(),
{
    XmlSink { writer: Writer::new(Vec::new()), indent: Ghost(false), ops: Ghost(Seq::empty()) }
}

/// `Writer::new_with_indent` over a byte buffer, indenting by two spaces.
#[verifier::external_body]
pub(crate) fn indented_writer() -> (r: XmlSink)
    ensures
        r.indents(),
        r.done() == Seq::<WriteOp>::empty(),
{
    XmlSink { writer: Writer::new_with_indent(Vec::new(), b' ', 2), indent: Ghost(true), ops: Ghost(Seq::empty()) }
}

/// `Writer::write_event` of a text event on the sink's writer. Claimed: it
/// succeeds (the writer's only errors are those of writing to the buffer,
/// and appending to a `Vec<u8>` does not fail), and the operation is
/// recorded.
#[verifier::external_body]
fn sink_write_text(sink: &mut XmlSink, text: &str) -> (r: Result<(), String>)
    ensures
        final(sink).indents() == old(sink).indents(),
        r is Ok,
        final(sink).done() == old(sink).done().push(WriteOp::Text(text@)),
{
    sink.writer.write_event(Event::Text(BytesText::new(text))).map_err(|e| e.to_string())
}

/// An element written on the sink's writer as `write_element` writes it.
/// Claimed: it succeeds (see `sink_write_text`), and the operation is
/// recorded.
#[verifier::external_body]
fn sink_write_element(
    sink: &mut XmlSink,
    name: &str,
    attrs: &Vec<(String, String)>,
    line_breaks: &Vec<bool>,
    content: &XmlContent,
) -> (r: Result<(), String>)
    requires
        line_breaks@.len() == attrs@.len(),
    ensures
        final(sink).indents() == old(sink).indents(),
        r is Ok,
        final(sink).done() == old(sink).done().push(WriteOp::Element(name@, attrs@, line_breaks@, *content)),
{
    let mut element = sink.writer.create_element(name);
    for ((key, value), line_break) in attrs.iter().zip(line_breaks.iter()) {
        element = if *line_break { element.new_line() } else { element };
        element = element.with_attribute((key.as_str(), value.as_str()));
    }
    match content {
        XmlContent::Empty => element.write_empty().map(|_| ()),
        XmlContent::Text(t) => element.write_text_content(BytesText::new(t)).map(|_| ()),
        XmlContent::Children(c) => element.write_inner_content(|w| write_nodes(w, c).map_err(std::io::Error::other)).map(|_| ()),
    }.map_err(|e| e.to_string())
}

/// Where line breaks go before `n` attributes (see `attr_line_breaks`).
pub open spec fn line_breaks_of(n: nat, attr_lines: bool) -> Seq<bool> {
    Seq::new(n, |i: int| attr_lines && i > 0)
}

/// The writing operation of a node.
pub open spec fn node_op(n: XmlNode) -> WriteOp {
    match n {
        XmlNode::Element { name, attrs, attr_lines, content } => WriteOp::Element(
            name@,
            attrs@,
            line_breaks_of(attrs@.len(), attr_lines),
            content,
        ),
        XmlNode::Text(t) => WriteOp::Text(t@),
    }
}

/// Writes the nodes on the sink in order, each recorded.
pub(crate) fn write_document(sink: &mut XmlSink, nodes: &Vec<XmlNode>) -> (r: Result<(), String>)
    ensures
        final(sink).indents() == old(sink).indents(),
        r is Ok,
        final(sink).done() == old(sink).done() + nodes@.map_values(|n: XmlNode| node_op(n)),
{
    let ghost start = sink.done();
    let mut i: usize = 0;
    while i < nodes.len()
        invariant
            i <= nodes@.len(),
            sink.indents() == old(sink).indents(),
            start == old(sink).done(),
            sink.done() == start + nodes@.take(i as int).map_values(|n: XmlNode| node_op(n)),
        decreases nodes@.len() - i,
    {
        let ghost before = sink.done();
        match &nodes[i] {
            XmlNode::Element { name, attrs, attr_lines, content } => {
                let line_breaks = attr_line_breaks(attrs.len(), *attr_lines);
                assert(line_breaks@ =~= line_breaks_of(attrs@.len(), *attr_lines));
                sink_write_element(sink, name.as_str(), attrs, &line_breaks, content)?;
            },
            XmlNode::Text(t) => {
                sink_write_text(sink, t.as_str())?;
            },
        }
        assert(nodes@.take(i + 1).map_values(|n: XmlNode| node_op(n)) =~= nodes@.take(i as int).map_values(
            |n: XmlNode| node_op(n),
        ).push(node_op(nodes@[i as int])));
        i = i + 1;
    }
    assert(nodes@.take(nodes@.len() as int) =~= nodes@);
    Ok(())
}

/// `Writer::write_event` of a text event (`BytesText::new` escapes it).
/// Claimed: it succeeds (see `sink_write_text`).
#[verifier::external_body]
fn write_text_event(w: &mut Writer<Vec<u8>>, text: &str) -> (r: Result<(), String>)
    ensures
        r is Ok,
{
    w.write_event(Event::Text(BytesText::new(text))).map_err(|e| e.to_string())
}

/// `Writer::create_element` with its attributes, each preceded by
/// `ElementWriter::new_line` where `line_breaks` says so, then
/// `write_empty`, `write_text_content` or `write_inner_content` (whose
/// closure writes the children with `write_nodes`). Claimed: it succeeds
/// (see `sink_write_text`; the closure's `write_nodes` succeeds too).
#[verifier::external_body]
fn write_element(
    w: &mut Writer<Vec<u8>>,
    name: &str,
    attrs: &Vec<(String, String)>,
    line_breaks: &Vec<bool>,
    content: &XmlContent,
) -> (r: Result<(), String>)
    requires
        line_breaks@.len() == attrs@.len(),
    ensures
        r is Ok,
{
    let mut element = w.create_element(name);
    for ((key, value), line_break) in attrs.iter().zip(line_breaks.iter()) {
        element = if *line_break { element.new_line() } else { element };
        element = element.with_attribute((key.as_str(), value.as_str()));
    }
    match content {
        XmlContent::Empty => element.write_empty().map(|_| ()),
        XmlContent::Text(t) => element.write_text_content(BytesText::new(t)).map(|_| ()),
        XmlContent::Children(c) => element.write_inner_content(|w| write_nodes(w, c).map_err(std::io::Error::other)).map(|_| ()),
    }.map_err(|e| e.to_string())
}

/// Where line breaks go before the attributes of an element: before each
/// attribute but the first when the element asks for attribute lines.
pub fn attr_line_breaks(n: usize, attr_lines: bool) -> (r: Vec<bool>)
    ensures
        r@.len() == n,
        forall|i: int| 0 <= i < n ==> #[trigger] r@[i] == (attr_lines && i > 0),
{
    let mut r: Vec<bool> = Vec::new();
    let mut i: usize = 0;
    while i < n
        invariant
            i <= n,
            r@.len() == i,
            forall|k: int| 0 <= k < i ==> #[trigger] r@[k] == (attr_lines && k > 0),
        decreases n - i,
    {
        r.push(attr_lines && i > 0);
        i = i + 1;
    }
    r
}

/// Writes the nodes in order, stopping at the first error of the writer.
pub(crate) fn write_nodes(w: &mut Writer<Vec<u8>>, nodes: &Vec<XmlNode>) -> (r: Result<(), String>)
    ensures
        r is Ok,
        nodes@.len() == 0 ==> *final(w) == *old(w),
{
    let mut i: usize = 0;
    while i < nodes.len()
        invariant
            i <= nodes@.len(),
            nodes@.len() == 0 ==> *w == *old(w),
        decreases nodes@.len() - i,
    {
        match &nodes[i] {
            XmlNode::Element { name, attrs, attr_lines, content } => {
                let line_breaks = attr_line_breaks(attrs.len(), *attr_lines);
                write_element(w, name.as_str(), attrs, &line_breaks, content)?;
            },
            XmlNode::Text(t) => {
                write_text_event(w, t.as_str())?;
            },
        }
        i = i + 1;
    }
    Ok(())
}

/// `Writer::into_inner` and `String::from_utf8`: the text written.
/// Claimed: the bytes are UTF-8 (the writer writes only text it was given
/// as `&str`, ASCII markup and spaces), and the text is named by
/// `xml_rendering` of the operations made on the sink.
#[verifier::external_body]
pub(crate) fn written_text(sink: XmlSink) -> (r: Result<String, String>)
    ensures
        r is Ok,
        r->Ok_0@ == xml_rendering(sink.indents(), sink.done()),
{
    String::from_utf8(sink.writer.into_inner()).map_err(|e| e.to_string())
}

} // verus!
