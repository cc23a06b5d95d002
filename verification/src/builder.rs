//! Building documents from the outside in.

use vstd::prelude::*;

use crate::dom::InstructionModel;
use crate::error::{ErrorKindModel, ErrorModel, XmlError, XmlErrorKind};
use crate::parser::error_option;
use crate::serialize::{
    cdata_text, escaped_attribute, instruction_text, write_attribute_value, write_cdata,
    write_comment, write_instruction, XmlQuoteStyle,
};
use crate::text::{byte_len, chars_of, lemma_byte_len_is_utf8, push_text, string_of};
use crate::value::ToXmlValue;

verus! {

/// An element under construction: the text so far, and the element that is open.
pub struct XmlDomElementBuilder {
    source: Vec<char>,
    error: Option<XmlError>,
    name: String,
    start_open: bool,
}

/// An element under construction as a mathematical value.
#[verifier::ext_equal]
pub struct BuilderModel {
    /// The text so far.
    pub text: Seq<char>,
    /// The first error.
    pub error: Option<ErrorModel>,
    /// The name of the element.
    pub name: Seq<char>,
    /// The start tag is still open.
    pub open: bool,
}

impl View for XmlDomElementBuilder {
    type V = BuilderModel;

    closed spec fn view(&self) -> BuilderModel {
        BuilderModel {
            text: self.source@,
            error: error_option(self.error),
            name: self.name@,
            open: self.start_open,
        }
    }
}

/// What is written for a character of a text.
pub open spec fn content_escape(c: char) -> Seq<char> {
    match c {
        '&' => "&amp;"@,
        '<' => "&lt;"@,
        '>' => "&gt;"@,
        _ => seq![c],
    }
}

/// What is written for a text.
pub open spec fn content_text(s: Seq<char>) -> Seq<char>
    decreases s.len(),
{
    if s.len() == 0 {
        Seq::empty()
    } else {
        content_text(s.drop_last()) + content_escape(s.last())
    }
}

/// An element with the given name has been started behind the text.
pub open spec fn started(text: Seq<char>, error: Option<ErrorModel>, name: Seq<char>) -> BuilderModel {
    BuilderModel { text: text + seq!['<'] + name, error, name, open: true }
}

/// The start tag has been closed.
pub open spec fn start_closed(b: BuilderModel) -> BuilderModel {
    if b.open {
        BuilderModel { text: b.text.push('>'), open: false, ..b }
    } else {
        b
    }
}

/// An error has been noted, unless there was one before.
pub open spec fn failed(b: BuilderModel) -> BuilderModel {
    match b.error {
        Some(_) => b,
        None => BuilderModel {
            error: Some(
                ErrorModel {
                    kind: ErrorKindModel::InvalidDocumentStructure,
                    byte: byte_len(b.text) as int,
                },
            ),
            ..b
        },
    }
}

/// An attribute has been added; behind content that is an error.
pub open spec fn with_attribute(b: BuilderModel, name: Seq<char>, value: Seq<char>) -> BuilderModel {
    if b.open {
        BuilderModel {
            text: b.text + seq![' '] + name + seq!['=', '"'] + escaped_attribute(
                value,
                XmlQuoteStyle::Double,
            ) + seq!['"'],
            ..b
        }
    } else {
        failed(b)
    }
}

/// Content has been added.
pub open spec fn with_content(b: BuilderModel, content: Seq<char>) -> BuilderModel {
    BuilderModel { text: start_closed(b).text + content, ..start_closed(b) }
}

/// The element has been ended.
pub open spec fn ended(b: BuilderModel) -> BuilderModel {
    if b.open {
        BuilderModel { text: b.text + "/>"@, open: false, ..b }
    } else {
        BuilderModel { text: b.text + "</"@ + b.name + seq!['>'], ..b }
    }
}

/// A child has been built inside of `b`: `child` is what it was when it had been ended.
pub open spec fn with_child(b: BuilderModel, child: BuilderModel) -> BuilderModel {
    BuilderModel { text: child.text, error: child.error, name: b.name, open: false }
}

/// Writes a text.
fn push_content(out: &mut Vec<char>, s: &str)
    ensures
        final(out)@ == old(out)@ + content_text(s@),
{
    let v = chars_of(s);
    let ghost start = out@;
    proof {
        assert(v@.take(0) =~= Seq::<char>::empty());
        assert(start + content_text(v@.take(0)) =~= start);
    }
    let mut k: usize = 0;
    while k < v.len()
        invariant
            k <= v@.len(),
            v@ == s@,
            out@ == start + content_text(s@.take(k as int)),
        decreases v@.len() - k,
    {
        let c = v[k];
        proof {
            assert(s@.take(k + 1).drop_last() =~= s@.take(k as int));
        }
        let ghost before = out@;
        match c {
            '&' => push_text(out, "&amp;"),
            '<' => push_text(out, "&lt;"),
            '>' => push_text(out, "&gt;"),
            _ => {
                out.push(c);
                proof {
                    assert(out@ =~= before + seq![c]);
                }
            },
        }
        proof {
            assert(out@ =~= start + (content_text(s@.take(k as int)) + content_escape(c)));
        }
        k = k + 1;
    }
    proof {
        assert(s@.take(k as int) =~= s@);
    }
}

impl XmlDomElementBuilder {
    /// Starts a document.
    pub(crate) fn start(name: &str, capacity: usize) -> (r: Self)
        ensures
            r@ == started(Seq::empty(), None, name@),
    {
        let mut source: Vec<char> = Vec::with_capacity(capacity);
        source.push('<');
        push_text(&mut source, name);
        proof {
            assert(source@ =~= Seq::<char>::empty() + seq!['<'] + name@);
        }
        XmlDomElementBuilder { source, error: None, name: name.to_owned(), start_open: true }
    }

    /// Makes room for more text.
    pub fn reserve(&mut self, additional: usize) -> (r: &mut Self)
        ensures
            (*r)@ == old(self)@,
            final(self)@ == final(r)@,
    {
        self.source.reserve(additional);
        self
    }

    /// Adds an attribute.
    pub fn attribute(&mut self, name: &str, value: &str) -> (r: &mut Self)
        ensures
            (*r)@ == with_attribute(old(self)@, name@, value@),
            final(self)@ == final(r)@,
    {
        if !self.start_open {
            self.note_error();
            return self;
        }
        let ghost start = self.source@;
        self.source.push(' ');
        push_text(&mut self.source, name);
        self.source.push('=');
        self.source.push('"');
        write_attribute_value(value, XmlQuoteStyle::Double, &mut self.source);
        self.source.push('"');
        proof {
            assert(self.source@ =~= start + seq![' '] + name@ + seq!['=', '"'] + escaped_attribute(
                value@,
                XmlQuoteStyle::Double,
            ) + seq!['"']);
        }
        self
    }

    /// Adds an attribute with the text of a value.
    pub fn attribute_typed<T: ToXmlValue>(&mut self, name: &str, value: T) -> (r: &mut Self)
        ensures
            (*r)@ == with_attribute(old(self)@, name@, value.xml_value()),
            final(self)@ == final(r)@,
    {
        let text = value.to_xml_value();
        self.attribute(name, text.as_str())
    }

    /// Adds text.
    pub fn text(&mut self, value: &str) -> (r: &mut Self)
        ensures
            (*r)@ == with_content(old(self)@, content_text(value@)),
            final(self)@ == final(r)@,
    {
        self.close_start();
        push_content(&mut self.source, value);
        self
    }

    /// Adds an element, which `build` fills.
    pub fn element<F: FnOnce(&mut XmlDomElementBuilder)>(&mut self, name: &str, build: F) -> (r:
        &mut Self)
        requires
            forall|child: &mut XmlDomElementBuilder| call_requires(build, (child,)),
        ensures
            exists|child: &mut XmlDomElementBuilder|
                child@ == started(
                    start_closed(old(self)@).text,
                    old(self)@.error,
                    name@,
                ) && (*r)@ == with_child(old(self)@, ended(final(child)@))
                    && #[trigger] call_ensures(build, (child,), ()),
            final(self)@ == final(r)@,
    {
        self.close_start();
        let mut source: Vec<char> = Vec::new();
        std::mem::swap(&mut source, &mut self.source);
        let ghost start = source@;
        source.push('<');
        push_text(&mut source, name);
        proof {
            assert(source@ =~= start + seq!['<'] + name@);
        }
        let mut error: Option<XmlError> = None;
        std::mem::swap(&mut error, &mut self.error);
        let mut child = XmlDomElementBuilder {
            source,
            error,
            name: name.to_owned(),
            start_open: true,
        };
        build(&mut child);
        child.end();
        self.source = child.source;
        self.error = child.error;
        self
    }

    /// Adds a comment.
    pub fn comment(&mut self, value: &str) -> (r: &mut Self)
        ensures
            (*r)@ == with_content(old(self)@, "<!--"@ + value@ + "-->"@),
            final(self)@ == final(r)@,
    {
        self.close_start();
        write_comment(value, &mut self.source);
        self
    }

    /// Adds CDATA.
    pub fn cdata(&mut self, value: &str) -> (r: &mut Self)
        ensures
            (*r)@ == with_content(old(self)@, cdata_text(value@)),
            final(self)@ == final(r)@,
    {
        self.close_start();
        write_cdata(value, &mut self.source);
        self
    }

    /// Adds a processing instruction.
    pub fn processing_instruction(&mut self, target: &str, data: &str) -> (r: &mut Self)
        ensures
            (*r)@ == with_content(
                old(self)@,
                instruction_text(InstructionModel { target: target@, data: data@ }),
            ),
            final(self)@ == final(r)@,
    {
        self.close_start();
        write_instruction(target, data, &mut self.source);
        self
    }

    /// Notes that a value could not be written as text.
    pub fn report_unwritable_value(&mut self) -> (r: &mut Self)
        ensures
            (*r)@ == failed(old(self)@),
            final(self)@ == final(r)@,
    {
        self.note_error();
        self
    }

    fn close_start(&mut self)
        ensures
            final(self)@ == start_closed(old(self)@),
    {
        if self.start_open {
            self.source.push('>');
            self.start_open = false;
        }
    }

    /// Ends the element.
    pub(crate) fn end(&mut self)
        ensures
            final(self)@ == ended(old(self)@),
    {
        let ghost start = self.source@;
        if self.start_open {
            push_text(&mut self.source, "/>");
            self.start_open = false;
        } else {
            push_text(&mut self.source, "</");
            push_text(&mut self.source, self.name.as_str());
            self.source.push('>');
            proof {
                assert(self.source@ =~= start + "</"@ + self.name@ + seq!['>']);
            }
        }
    }

    fn note_error(&mut self)
        ensures
            final(self)@ == failed(old(self)@),
    {
        if self.error.is_none() {
            let text = string_of(self.source.as_slice());
            proof {
                lemma_byte_len_is_utf8(text@);
            }
            let byte: usize = text.as_str().as_bytes().len();
            self.error = Some(XmlError::new(XmlErrorKind::InvalidDocumentStructure, byte));
        }
    }

    /// The text, or the first error.
    pub(crate) fn into_text(self) -> (r: Result<String, XmlError>)
        ensures
            match r {
                Ok(x) => self@.error is None && x@ == self@.text,
                Err(e) => self@.error == Some(e@),
            },
    {
        match self.error {
            Some(e) => Err(e),
            None => Ok(string_of(self.source.as_slice())),
        }
    }
}

} // verus!
