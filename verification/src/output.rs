//! Writing the nodes of editable documents, and where they stood in the source.

use vstd::prelude::*;

use crate::access::read_with;
use crate::dom::{node_models, release_node, release_nodes, XmlNodeKind};
use crate::encoding::char_before;
use crate::facade::{capped, capped_sum, target, StateModel, XmlDom};
use crate::handle::{
    output_outcome, plain_outcome, DomErrorModel, HandleModel, OutputErrorModel, XmlDomError,
    XmlDomNode, XmlDomOutputError,
};
use crate::recovery::floor_char;
use crate::serialize::{
    default_options, encode_text, encoded, node_text, nodes_text, write_node, write_nodes,
    XmlSerializeOptions, XmlWriteError,
};
use crate::text::{byte_offset, string_of, Source};
use crate::tree::{snapshot, snapshot_all, snapshots_from, TreeModel};

verus! {

/// What a node is written as.
pub open spec fn node_output(s: StateModel, t: TreeModel, options: XmlSerializeOptions) -> Result<
    Seq<char>,
    OutputErrorModel,
> {
    match snapshot(t, s.reading) {
        Ok(n) => Ok(node_text(n, options.quote_style)),
        Err(e) => Err(OutputErrorModel::Write(e)),
    }
}

/// What the children of an element are written as.
pub open spec fn inner_output(s: StateModel, t: TreeModel, options: XmlSerializeOptions) -> Result<
    Seq<char>,
    OutputErrorModel,
> {
    if t.kind != XmlNodeKind::Element {
        Err(OutputErrorModel::Dom(DomErrorModel::NotElement))
    } else {
        match snapshots_from(t.children, 0, s.reading, Seq::empty()) {
            Ok(n) => Ok(nodes_text(n, n.len() as int, options.quote_style)),
            Err(e) => Err(OutputErrorModel::Write(e)),
        }
    }
}

/// What is written for the node of a handle.
pub open spec fn handle_output(
    s: StateModel,
    h: HandleModel,
    options: XmlSerializeOptions,
    inner: bool,
) -> Result<Seq<char>, OutputErrorModel> {
    match target(s, h) {
        Err(e) => Err(OutputErrorModel::Dom(e)),
        Ok(t) => if inner {
            inner_output(s, t, options)
        } else {
            node_output(s, t, options)
        },
    }
}

/// What a position in a source counts.
#[derive(Clone, Copy, Debug, PartialEq, Eq, Hash, Structural)]
pub enum XmlSourceCoordinates {
    /// The text after decoding, as UTF-8.
    DecodedUtf8,
}

/// A position in a source.
#[derive(Clone, Copy, Debug, PartialEq, Eq, Hash, Structural)]
pub struct XmlSourcePosition {
    /// The byte, from zero on.
    pub byte: usize,
    /// The line, from one on.
    pub line: usize,
    /// The character in the line, from one on.
    pub column: usize,
    /// What the position counts.
    pub coordinates: XmlSourceCoordinates,
}

/// How many line feeds there are among the first `i` characters.
pub open spec fn line_feeds(s: Seq<char>, i: int) -> nat
    decreases i,
{
    if i <= 0 || i > s.len() {
        0
    } else {
        line_feeds(s, i - 1) + if s[i - 1] == '\n' {
            1nat
        } else {
            0nat
        }
    }
}

/// How many characters there are between the last line feed before character `i` and that
/// character.
pub open spec fn in_line(s: Seq<char>, i: int) -> nat
    decreases i,
{
    if i <= 0 || i > s.len() || s[i - 1] == '\n' {
        0
    } else {
        in_line(s, i - 1) + 1
    }
}

/// The position of character `i`.
pub open spec fn position_of(s: Seq<char>, i: int) -> XmlSourcePosition {
    XmlSourcePosition {
        byte: byte_offset(s, i) as usize,
        line: capped(line_feeds(s, i) + 1),
        column: capped(in_line(s, i) + 1),
        coordinates: XmlSourceCoordinates::DecodedUtf8,
    }
}

/// Where a node stood in the source; new nodes and copies have not stood there.
pub open spec fn origin_position(s: StateModel, t: TreeModel) -> Result<
    Option<XmlSourcePosition>,
    DomErrorModel,
> {
    match t.origin {
        None => Ok(None),
        Some(b) => {
            let i = char_before(s.source, s.source.len() as int, b as int);
            if byte_offset(s.source, i) == b {
                Ok(Some(position_of(s.source, i)))
            } else {
                Err(DomErrorModel::InvalidTarget)
            }
        },
    }
}

/// Finds the line and the column of a character.
fn find_line(s: &[char], i: usize) -> (r: (usize, usize))
    requires
        i <= s@.len(),
    ensures
        r.0 == line_feeds(s@, i as int),
        r.1 == in_line(s@, i as int),
{
    let mut line: usize = 0;
    let mut column: usize = 0;
    let mut k: usize = 0;
    while k < i
        invariant
            k <= i <= s@.len(),
            line == line_feeds(s@, k as int),
            column == in_line(s@, k as int),
            line <= k,
            column <= k,
        decreases i - k,
    {
        if s[k] == '\n' {
            line = line + 1;
            column = 0;
        } else {
            column = column + 1;
        }
        k = k + 1;
    }
    (line, column)
}

impl XmlDomNode {
    /// Returns where the node stood in the text that was parsed, its entities replaced.
    pub fn source_position(&self, dom: &XmlDom) -> (r: Result<
        Option<XmlSourcePosition>,
        XmlDomError,
    >)
        ensures
            plain_outcome(r) == read_with(dom@, self@, |t: TreeModel| origin_position(dom@, t)),
    {
        let n = match dom.find(self) {
            Err(e) => {
                return Err(e);
            },
            Ok(n) => n,
        };
        let b: u32 = match n.origin {
            None => {
                return Ok(None);
            },
            Some(b) => b,
        };
        let source = Source::new(dom.state().source.as_str());
        let i: usize = floor_char(source.chars.as_slice(), b as usize);
        let byte: usize = source.offset(i);
        if byte != b as usize {
            return Err(XmlDomError::InvalidTarget);
        }
        let (line, column) = find_line(source.chars.as_slice(), i);
        Ok(
            Some(
                XmlSourcePosition {
                    byte,
                    line: capped_sum(line, 1),
                    column: capped_sum(column, 1),
                    coordinates: XmlSourceCoordinates::DecodedUtf8,
                },
            ),
        )
    }

    /// Writes the node.
    pub fn to_xml_string(&self, dom: &XmlDom) -> (r: Result<String, XmlDomOutputError>)
        ensures
            output_outcome(r) == handle_output(dom@, self@, default_options(), false),
    {
        self.output(dom, &XmlSerializeOptions::default(), false)
    }

    /// Writes the node in the given way. There is no declaration and no byte order mark.
    pub fn to_xml_string_with_options(&self, dom: &XmlDom, options: &XmlSerializeOptions) -> (r:
        Result<String, XmlDomOutputError>)
        ensures
            output_outcome(r) == handle_output(dom@, self@, *options, false),
    {
        self.output(dom, options, false)
    }

    /// Writes the children of an element.
    pub fn to_inner_xml_string(&self, dom: &XmlDom) -> (r: Result<String, XmlDomOutputError>)
        ensures
            output_outcome(r) == handle_output(dom@, self@, default_options(), true),
    {
        self.output(dom, &XmlSerializeOptions::default(), true)
    }

    /// Writes the children of an element in the given way.
    pub fn to_inner_xml_string_with_options(&self, dom: &XmlDom, options: &XmlSerializeOptions) -> (r:
        Result<String, XmlDomOutputError>)
        ensures
            output_outcome(r) == handle_output(dom@, self@, *options, true),
    {
        self.output(dom, options, true)
    }

    /// Writes the node, or the children of an element, as bytes.
    pub fn to_xml_bytes(&self, dom: &XmlDom, options: &XmlSerializeOptions, inner: bool) -> (r:
        Result<Vec<u8>, XmlDomOutputError>)
        ensures
            match r {
                Ok(b) => handle_output(dom@, self@, *options, inner) is Ok && b@ == encoded(
                    handle_output(dom@, self@, *options, inner)->Ok_0,
                    options.encoding,
                ),
                Err(e) => handle_output(dom@, self@, *options, inner) == Err::<
                    Seq<char>,
                    OutputErrorModel,
                >(e@),
            },
    {
        match self.output(dom, options, inner) {
            Err(e) => Err(e),
            Ok(text) => Ok(encode_text(text.as_str(), options.encoding)),
        }
    }

    fn output(&self, dom: &XmlDom, options: &XmlSerializeOptions, inner: bool) -> (r: Result<
        String,
        XmlDomOutputError,
    >)
        ensures
            output_outcome(r) == handle_output(dom@, self@, *options, inner),
    {
        let n = match dom.find(self) {
            Err(e) => {
                return Err(XmlDomOutputError::Dom(e));
            },
            Ok(n) => n,
        };
        let reading = dom.state().reading;
        let mut out: Vec<char> = Vec::new();
        if inner {
            if n.kind != XmlNodeKind::Element {
                return Err(XmlDomOutputError::Dom(XmlDomError::NotElement));
            }
            match snapshot_all(&n.children, reading) {
                Err(e) => {
                    return Err(XmlDomOutputError::Write(XmlWriteError::Parse(e)));
                },
                Ok(v) => {
                    write_nodes(&v, options.quote_style, &mut out);
                    proof {
                        assert(out@ =~= nodes_text(
                            node_models(v@),
                            v@.len() as int,
                            options.quote_style,
                        ));
                    }
                    release_nodes(v);
                },
            }
        } else {
            match n.snapshot(reading) {
                Err(e) => {
                    return Err(XmlDomOutputError::Write(XmlWriteError::Parse(e)));
                },
                Ok(x) => {
                    write_node(&x, options.quote_style, &mut out);
                    proof {
                        assert(out@ =~= node_text(x.model(), options.quote_style));
                    }
                    release_node(x);
                },
            }
        }
        Ok(string_of(out.as_slice()))
    }
}

} // verus!
