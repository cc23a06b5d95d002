//! Fragments: nodes without a root element.

use vstd::prelude::*;

use std::ops::Range;

use crate::compact::{compact_parse, parse_compact_document_with_config};
use crate::config::{default_config, ConfigModel, ParserConfig};
use crate::document::DocumentModel;
use crate::dom::{
    clone_nodes, node_lists_equal, node_models, NodeModel, XmlElement, XmlMemoryRetention, XmlNode,
};
use crate::dom_api::{keeps_rest_of_children, release_spare_capacity};
use crate::encoding::char_before;
use crate::error::{ErrorModel, XmlError, XmlErrorKind, XmlResult};
use crate::flat::materialized;
use crate::parser::{
    error_option, error_within, parse_compact_document_tolerant_with_config, tolerant_parse,
    OutcomeModel, XmlParseOutcome, XmlParser,
};
use crate::recovery::floor_char;
use crate::text::{
    byte_len, byte_offset, chars_of, lemma_byte_len_concat, lemma_byte_len_is_utf8,
    lemma_byte_len_push, lemma_byte_offset_monotone, push_between, spells, starts_at, starts_with,
    starts_with_chars, string_of, Source,
};
use crate::value::push_decimal;

verus! {

/// A decimal digit.
pub open spec fn digit(d: int) -> char {
    if d == 0 {
        '0'
    } else if d == 1 {
        '1'
    } else if d == 2 {
        '2'
    } else if d == 3 {
        '3'
    } else if d == 4 {
        '4'
    } else if d == 5 {
        '5'
    } else if d == 6 {
        '6'
    } else if d == 7 {
        '7'
    } else if d == 8 {
        '8'
    } else {
        '9'
    }
}

/// A number in decimal notation.
pub open spec fn decimal(n: nat) -> Seq<char>
    decreases n,
{
    if n < 10 {
        seq![digit(n as int)]
    } else {
        decimal(n / 10).push(digit((n % 10) as int))
    }
}

/// How many underscores there are from `i` on.
pub open spec fn underscores_at(s: Seq<char>, i: int) -> nat
    decreases s.len() - i,
{
    if 0 <= i < s.len() && s[i] == '_' {
        1 + underscores_at(s, i + 1)
    } else {
        0
    }
}

/// The larger of a number and an optional one.
pub open spec fn larger(a: Option<nat>, b: nat) -> nat {
    match a {
        Some(x) => if x > b {
            x
        } else {
            b
        },
        None => b,
    }
}

/// The longest run of underscores behind an occurrence of `t`, from `i` on; `best` is the longest
/// so far.
pub open spec fn longest_tail(s: Seq<char>, t: Seq<char>, i: int, best: Option<nat>) -> Option<nat>
    decreases s.len() - i,
{
    if i < 0 || i >= s.len() {
        best
    } else if starts_at(s, i, t) {
        longest_tail(s, t, i + 1, Some(larger(best, underscores_at(s, i + t.len()))))
    } else {
        longest_tail(s, t, i + 1, best)
    }
}

/// `s` with `n` underscores behind it.
pub open spec fn with_underscores(s: Seq<char>, n: nat) -> Seq<char>
    decreases n,
{
    if n == 0 {
        s
    } else {
        with_underscores(s, (n - 1) as nat).push('_')
    }
}

/// The name that the wrapper of a fragment starts with.
pub open spec fn wrapper_stem(s: Seq<char>) -> Seq<char> {
    "xml-fragment-"@ + decimal(byte_len(s))
}

/// The name of the element that is put around a fragment: one that does not occur in it.
pub open spec fn wrapper_name(s: Seq<char>) -> Seq<char> {
    match longest_tail(s, wrapper_stem(s), 0, None) {
        None => wrapper_stem(s),
        Some(n) => with_underscores(wrapper_stem(s), n + 1),
    }
}

/// The fragment with an element around it.
pub open spec fn wrapped(s: Seq<char>) -> Seq<char> {
    "<"@ + wrapper_name(s) + ">"@ + s + "</"@ + wrapper_name(s) + ">"@
}

/// How many bytes stand before the fragment in the wrapped text.
pub open spec fn wrapper_bytes(s: Seq<char>) -> int {
    byte_len(wrapper_name(s)) as int + 2
}

/// A byte of the wrapped text as one of the fragment.
pub open spec fn fragment_byte(s: Seq<char>, at: int) -> int {
    let k = at - wrapper_bytes(s);
    if k < 0 {
        0
    } else if k > byte_len(s) {
        byte_len(s) as int
    } else {
        k
    }
}

/// The last occurrence of `t` that ends at or before `k`.
pub open spec fn last_before(s: Seq<char>, k: int, t: Seq<char>) -> Option<int>
    decreases k,
{
    if k < t.len() || k <= 0 {
        None
    } else if starts_at(s, k - t.len(), t) {
        Some(k - t.len())
    } else {
        last_before(s, k - 1, t)
    }
}

/// An error of the wrapped text as one of the fragment.
///
/// An end tag that closes the wrapper is an error where that tag starts.
pub open spec fn fragment_error(s: Seq<char>, e: ErrorModel) -> ErrorModel {
    let at = fragment_byte(s, e.byte);
    if e.kind is MismatchedEndTag && e.kind->expected == wrapper_name(s) {
        let k = char_before(s, s.len() as int, at);
        ErrorModel {
            kind: e.kind,
            byte: match last_before(s, k, "</"@) {
                Some(i) => byte_offset(s, i) as int,
                None => at,
            },
        }
    } else {
        ErrorModel { kind: e.kind, byte: at }
    }
}

/// The nodes below the root element of a document.
pub open spec fn nodes_below_root(m: DocumentModel, c: ConfigModel) -> Result<
    Seq<NodeModel>,
    ErrorModel,
> {
    match materialized(m.text, m.root, m.version, c.attribute_whitespace) {
        Err(e) => Err(e),
        Ok(n) => Ok(n->Element_0.children),
    }
}

/// What a strict parse of a fragment returns.
pub open spec fn fragment_parse(s: Seq<char>, c: ConfigModel) -> Result<Seq<NodeModel>, ErrorModel> {
    match compact_parse(wrapped(s), c) {
        Err(e) => Err(fragment_error(s, e)),
        Ok(m) => match nodes_below_root(m, c) {
            Err(e) => Err(fragment_error(s, e)),
            Ok(n) => Ok(n),
        },
    }
}

/// What a tolerant parse of a fragment returns.
pub open spec fn tolerant_fragment(s: Seq<char>, c: ConfigModel) -> Result<
    OutcomeModel<Seq<NodeModel>>,
    ErrorModel,
> {
    match tolerant_parse(wrapped(s), c) {
        Err(e) => Err(fragment_error(s, e)),
        Ok(o) => match nodes_below_root(o.value, c) {
            Err(e) => Err(fragment_error(s, e)),
            Ok(n) => match o.diagnostic {
                None => Ok(
                    OutcomeModel { value: n, diagnostic: None, consumed: byte_len(s) as int },
                ),
                Some(e) => Ok(
                    OutcomeModel {
                        value: n,
                        diagnostic: Some(fragment_error(s, e)),
                        consumed: fragment_byte(s, o.consumed),
                    },
                ),
            },
        },
    }
}

/// A tolerant parse of a fragment reports exactly what a strict one does.
///
/// What it returns without a report is what a strict parse returns, its report is the strict
/// error, and so is its error if nothing was recovered. The error that is left is that of a value
/// in the start that was recovered.
pub proof fn lemma_tolerant_fragment_reports(s: Seq<char>, c: ConfigModel)
    ensures
        tolerant_fragment(s, c) matches Ok(o) ==> fragment_parse(s, c) == (match o.diagnostic {
            None => Ok::<Seq<NodeModel>, ErrorModel>(o.value),
            Some(e) => Err(e),
        }),
        tolerant_fragment(s, c) matches Err(e) ==> (tolerant_parse(wrapped(s), c) matches Ok(o)
            && o.diagnostic is Some) || fragment_parse(s, c) == Err::<Seq<NodeModel>, ErrorModel>(
            e,
        ),
{
}

/// Nodes without a root element.
#[derive(Debug)]
pub struct XmlFragment {
    nodes: Vec<XmlNode>,
}

impl View for XmlFragment {
    type V = Seq<NodeModel>;

    closed spec fn view(&self) -> Seq<NodeModel> {
        node_models(self.nodes@)
    }
}

impl Default for XmlFragment {
    fn default() -> (r: Self)
        ensures
            r@ == Seq::<NodeModel>::empty(),
    {
        let r = XmlFragment { nodes: Vec::new() };
        proof {
            assert(node_models(r.nodes@) =~= Seq::<NodeModel>::empty());
        }
        r
    }
}

impl PartialEq for XmlFragment {
    fn eq(&self, other: &Self) -> (r: bool) {
        node_lists_equal(&self.nodes, &other.nodes)
    }
}

impl vstd::std_specs::cmp::PartialEqSpecImpl for XmlFragment {
    open spec fn obeys_eq_spec() -> bool {
        true
    }

    open spec fn eq_spec(&self, other: &Self) -> bool {
        self@ == other@
    }
}

impl Eq for XmlFragment {

}

impl std::str::FromStr for XmlFragment {
    type Err = XmlError;

    fn from_str(source: &str) -> (r: XmlResult<Self>) {
        parse_fragment(source)
    }
}

impl Clone for XmlFragment {
    fn clone(&self) -> (r: Self)
        ensures
            r@ == self@,
    {
        XmlFragment { nodes: clone_nodes(&self.nodes) }
    }
}

impl XmlFragment {
    /// Returns the nodes.
    pub fn nodes(&self) -> (r: &[XmlNode])
        ensures
            node_models(r@) == self@,
    {
        self.nodes.as_slice()
    }

    /// Turns the fragment into its nodes.
    pub fn into_nodes(self) -> (r: Vec<XmlNode>)
        ensures
            node_models(r@) == self@,
    {
        self.nodes
    }
}

/// Counts the underscores from `i` on.
fn count_underscores(s: &[char], i: usize) -> (r: usize)
    requires
        i <= s@.len(),
    ensures
        r == underscores_at(s@, i as int),
        i + r <= s@.len(),
{
    let mut k: usize = i;
    while k < s.len() && s[k] == '_'
        invariant
            i <= k <= s@.len(),
            underscores_at(s@, i as int) == (k - i) + underscores_at(s@, k as int),
        decreases s@.len() - k,
    {
        k = k + 1;
    }
    k - i
}

/// Finds the longest run of underscores behind an occurrence of `t`.
fn find_longest_tail(s: &[char], t: &[char]) -> (r: Option<usize>)
    ensures
        match r {
            Some(n) => longest_tail(s@, t@, 0, None) == Some(n as nat) && n <= s@.len(),
            None => longest_tail(s@, t@, 0, None) is None,
        },
{
    let mut best: Option<usize> = None;
    let mut i: usize = 0;
    while i < s.len()
        invariant
            i <= s@.len(),
            best is Some ==> best->Some_0 <= s@.len(),
            longest_tail(s@, t@, 0, None) == longest_tail(
                s@,
                t@,
                i as int,
                match best {
                    Some(n) => Some(n as nat),
                    None => None,
                },
            ),
        decreases s@.len() - i,
    {
        if starts_with_chars(s, i, t) {
            proof {
                assert(s.len() == s@.len());
            }
            let n: usize = count_underscores(s, i + t.len());
            best = match best {
                Some(x) => if x > n {
                    Some(x)
                } else {
                    Some(n)
                },
                None => Some(n),
            };
        }
        i = i + 1;
    }
    best
}

/// Finds the name of the wrapper.
fn find_wrapper_name(source: &Source) -> (r: Vec<char>)
    requires
        source.wf(),
    ensures
        r@ == wrapper_name(source.text@),
{
    let ghost s = source.text@;
    let mut name: Vec<char> = chars_of("xml-fragment-");
    let n: usize = source.text.as_bytes().len();
    proof {
        lemma_byte_len_is_utf8(s);
    }
    push_decimal(n as u64, &mut name);
    match find_longest_tail(source.chars.as_slice(), name.as_slice()) {
        None => name,
        Some(n) => {
            let ghost stem = name@;
            name.push('_');
            proof {
                assert(with_underscores(stem, 0) == stem);
            }
            let mut k: usize = 0;
            while k < n
                invariant
                    k <= n,
                    name@ == with_underscores(stem, (k + 1) as nat),
                decreases n - k,
            {
                name.push('_');
                k = k + 1;
            }
            name
        },
    }
}

/// Puts an element around a fragment.
fn wrap_fragment(source: &Source, name: &Vec<char>) -> (r: String)
    requires
        source.wf(),
        name@ == wrapper_name(source.text@),
    ensures
        r@ == wrapped(source.text@),
{
    let mut out: Vec<char> = Vec::new();
    out.push('<');
    push_between(&mut out, name.as_slice(), 0, name.len());
    out.push('>');
    push_between(&mut out, source.chars.as_slice(), 0, source.chars.len());
    out.push('<');
    out.push('/');
    push_between(&mut out, name.as_slice(), 0, name.len());
    out.push('>');
    proof {
        reveal_strlit("<");
        reveal_strlit(">");
        reveal_strlit("</");
        assert(name@.subrange(0, name@.len() as int) =~= name@);
        assert(source.chars@.subrange(0, source.chars@.len() as int) =~= source.text@);
        assert(out@ =~= wrapped(source.text@));
    }
    string_of(out.as_slice())
}

/// A byte of the wrapped text as one of the fragment.
fn translate_fragment_byte(source: &Source, prefix: usize, at: usize) -> (r: usize)
    requires
        source.wf(),
        prefix == wrapper_bytes(source.text@),
    ensures
        r == fragment_byte(source.text@, at as int),
        r <= byte_len(source.text@),
{
    let n: usize = source.text.as_bytes().len();
    proof {
        lemma_byte_len_is_utf8(source.text@);
    }
    if at < prefix {
        0
    } else if at - prefix > n {
        n
    } else {
        at - prefix
    }
}

/// Finds the last occurrence of `</` that ends at or before `k`.
fn find_last_end_tag(s: &[char], k: usize) -> (r: Option<usize>)
    requires
        k <= s@.len(),
    ensures
        match r {
            Some(i) => last_before(s@, k as int, "</"@) == Some(i as int) && i <= s@.len(),
            None => last_before(s@, k as int, "</"@) is None,
        },
{
    proof {
        reveal_strlit("</");
    }
    let mut j: usize = k;
    while j >= 2
        invariant
            j <= k <= s@.len(),
            "</"@.len() == 2,
            last_before(s@, k as int, "</"@) == last_before(s@, j as int, "</"@),
        decreases j,
    {
        if starts_with(s, j - 2, "</") {
            return Some(j - 2);
        }
        j = j - 1;
    }
    None
}

/// An error of the wrapped text as one of the fragment.
fn translate_fragment_error(source: &Source, name: &Vec<char>, prefix: usize, error: XmlError) -> (r:
    XmlError)
    requires
        source.wf(),
        name@ == wrapper_name(source.text@),
        prefix == wrapper_bytes(source.text@),
    ensures
        r@ == fragment_error(source.text@, error@),
        r.byte <= byte_len(source.text@),
{
    let at: usize = translate_fragment_byte(source, prefix, error.byte);
    let closes_wrapper = match &error.kind {
        XmlErrorKind::MismatchedEndTag { expected, .. } => spells(
            name.as_slice(),
            expected.as_str(),
        ),
        _ => false,
    };
    let byte: usize = if closes_wrapper {
        let k: usize = floor_char(source.chars.as_slice(), at);
        match find_last_end_tag(source.chars.as_slice(), k) {
            Some(i) => {
                proof {
                    lemma_byte_offset_monotone(
                        source.text@,
                        i as int,
                        source.text@.len() as int,
                    );
                }
                source.offset(i)
            },
            None => at,
        }
    } else {
        at
    };
    XmlError { kind: error.kind, byte }
}

/// How many bytes stand before the fragment.
fn count_wrapper_bytes(source: &Source, name: &Vec<char>, text: &str) -> (r: usize)
    requires
        source.wf(),
        name@ == wrapper_name(source.text@),
        text@ == wrapped(source.text@),
    ensures
        r == wrapper_bytes(source.text@),
{
    let ghost s = source.text@;
    let w = string_of(name.as_slice());
    let n: usize = w.as_str().as_bytes().len();
    let total: usize = text.as_bytes().len();
    proof {
        lemma_byte_len_is_utf8(w@);
        lemma_byte_len_is_utf8(text@);
        lemma_wrapped_bytes(s);
    }
    n + 2
}

/// The wrapped text has the bytes of the wrapper's two tags beside those of the fragment.
proof fn lemma_wrapped_bytes(s: Seq<char>)
    ensures
        byte_len(wrapped(s)) == byte_len(s) + 2 * byte_len(wrapper_name(s)) + 5,
{
    reveal_strlit("<");
    reveal_strlit(">");
    reveal_strlit("</");
    let w = wrapper_name(s);
    assert("<"@ =~= Seq::<char>::empty().push('<'));
    assert(">"@ =~= Seq::<char>::empty().push('>'));
    assert("</"@ =~= Seq::<char>::empty().push('<').push('/'));
    lemma_byte_len_push(Seq::empty(), '<');
    lemma_byte_len_push(Seq::empty(), '>');
    lemma_byte_len_push(Seq::empty().push('<'), '/');
    let a = "<"@ + w;
    let b = a + ">"@;
    let c = b + s;
    let d = c + "</"@;
    let e = d + w;
    lemma_byte_len_concat("<"@, w);
    lemma_byte_len_concat(a, ">"@);
    lemma_byte_len_concat(b, s);
    lemma_byte_len_concat(c, "</"@);
    lemma_byte_len_concat(d, w);
    lemma_byte_len_concat(e, ">"@);
}

/// The parse of a fragment returned what `m` says.
pub open spec fn fragment_agrees(
    r: XmlResult<XmlFragment>,
    m: Result<Seq<NodeModel>, ErrorModel>,
) -> bool {
    match r {
        Ok(f) => m == Ok::<Seq<NodeModel>, ErrorModel>(f@),
        Err(e) => m == Err::<Seq<NodeModel>, ErrorModel>(e@),
    }
}

/// The tolerant parse of a fragment returned what `m` says.
pub open spec fn fragment_outcome_agrees(
    r: XmlResult<XmlParseOutcome<XmlFragment>>,
    m: Result<OutcomeModel<Seq<NodeModel>>, ErrorModel>,
) -> bool {
    match r {
        Ok(o) => m == Ok::<OutcomeModel<Seq<NodeModel>>, ErrorModel>(
            OutcomeModel {
                value: o.value@,
                diagnostic: error_option(o.diagnostic),
                consumed: o.consumed_bytes as int,
            },
        ),
        Err(e) => m == Err::<OutcomeModel<Seq<NodeModel>>, ErrorModel>(e@),
    }
}

/// Parses a fragment with the default options.
pub fn parse_fragment(source: &str) -> (r: XmlResult<XmlFragment>)
    ensures
        fragment_agrees(r, fragment_parse(source@, default_config())),
        error_within(r, byte_len(source@) as int),
{
    parse_fragment_with_config(source, ParserConfig::default())
}

/// Parses a fragment.
pub fn parse_fragment_with_config(source: &str, config: ParserConfig) -> (r: XmlResult<XmlFragment>)
    ensures
        fragment_agrees(r, fragment_parse(source@, config@)),
        error_within(r, byte_len(source@) as int),
{
    let text = Source::new(source);
    let name = find_wrapper_name(&text);
    let wrapped = wrap_fragment(&text, &name);
    let prefix: usize = count_wrapper_bytes(&text, &name, wrapped.as_str());
    match parse_compact_document_with_config(wrapped, config) {
        Err(e) => Err(translate_fragment_error(&text, &name, prefix, e)),
        Ok(d) => match d.materialize_root() {
            Err(e) => Err(translate_fragment_error(&text, &name, prefix, e)),
            Ok(XmlNode::Element(e)) => Ok(XmlFragment { nodes: e.children }),
            Ok(_) => Ok(XmlFragment { nodes: Vec::new() }),
        },
    }
}

/// Parses a fragment, or keeps the start of one, with the default options.
pub fn parse_fragment_tolerant(source: &str) -> (r: XmlResult<XmlParseOutcome<XmlFragment>>)
    ensures
        fragment_outcome_agrees(r, tolerant_fragment(source@, default_config())),
        error_within(r, byte_len(source@) as int),
{
    parse_fragment_tolerant_with_config(source, ParserConfig::default())
}

/// Parses a fragment, or keeps the start of one.
pub fn parse_fragment_tolerant_with_config(source: &str, config: ParserConfig) -> (r: XmlResult<
    XmlParseOutcome<XmlFragment>,
>)
    ensures
        fragment_outcome_agrees(r, tolerant_fragment(source@, config@)),
        error_within(r, byte_len(source@) as int),
{
    let text = Source::new(source);
    let name = find_wrapper_name(&text);
    let wrapped = wrap_fragment(&text, &name);
    let prefix: usize = count_wrapper_bytes(&text, &name, wrapped.as_str());
    let o = match parse_compact_document_tolerant_with_config(wrapped, config) {
        Err(e) => {
            return Err(translate_fragment_error(&text, &name, prefix, e));
        },
        Ok(o) => o,
    };
    let nodes = match o.value.materialize_root() {
        Err(e) => {
            return Err(translate_fragment_error(&text, &name, prefix, e));
        },
        Ok(XmlNode::Element(e)) => e.children,
        Ok(_) => Vec::new(),
    };
    let value = XmlFragment { nodes };
    match o.diagnostic {
        None => {
            proof {
                lemma_byte_len_is_utf8(source@);
            }
            Ok(
                XmlParseOutcome { value, diagnostic: None, consumed_bytes: source.as_bytes().len() },
            )
        },
        Some(e) => {
            let consumed_bytes: usize = translate_fragment_byte(&text, prefix, o.consumed_bytes);
            let diagnostic = Some(translate_fragment_error(&text, &name, prefix, e));
            Ok(XmlParseOutcome { value, diagnostic, consumed_bytes })
        },
    }
}

impl XmlParser {
    /// Parses a fragment.
    pub fn parse_fragment(&self, input: &str) -> (r: XmlResult<XmlFragment>)
        ensures
            fragment_agrees(r, fragment_parse(input@, self@)),
    {
        parse_fragment_with_config(input, self.options())
    }

    /// Parses a fragment, or keeps the start of one.
    pub fn parse_fragment_tolerant(&self, input: &str) -> (r: XmlResult<
        XmlParseOutcome<XmlFragment>,
    >)
        ensures
            fragment_outcome_agrees(r, tolerant_fragment(input@, self@)),
    {
        parse_fragment_tolerant_with_config(input, self.options())
    }
}

impl XmlElement {
    /// Appends the nodes of a fragment, and returns their places.
    pub fn append_fragment(&mut self, fragment: XmlFragment) -> (r: Range<usize>)
        ensures
            node_models(final(self).children@) == node_models(old(self).children@) + fragment@,
            keeps_rest_of_children(*old(self), *final(self)),
            r.start == old(self).children@.len(),
            r.end == final(self).children@.len(),
    {
        self.append_fragment_with_retention(fragment, XmlMemoryRetention::RetainCapacity)
    }

    /// Appends the nodes of a fragment; `retention` says what becomes of the memory.
    pub fn append_fragment_with_retention(
        &mut self,
        fragment: XmlFragment,
        retention: XmlMemoryRetention,
    ) -> (r: Range<usize>)
        ensures
            node_models(final(self).children@) == node_models(old(self).children@) + fragment@,
            keeps_rest_of_children(*old(self), *final(self)),
            r.start == old(self).children@.len(),
            r.end == final(self).children@.len(),
    {
        let start: usize = self.children.len();
        let mut nodes = fragment.nodes;
        let ghost before = self.children@;
        let ghost added = nodes@;
        self.children.append(&mut nodes);
        if retention == XmlMemoryRetention::ReleaseSpareCapacity {
            release_spare_capacity(&mut self.children);
        }
        proof {
            assert(node_models(self.children@) =~= node_models(before) + node_models(added));
        }
        start..self.children.len()
    }

    /// Parses a fragment and appends its nodes; an error leaves the element as it was.
    pub fn append_xml(&mut self, source: &str) -> (r: XmlResult<Range<usize>>)
        ensures
            appended(*old(self), *final(self), r, fragment_parse(source@, default_config())),
    {
        self.append_xml_with_config(source, ParserConfig::default())
    }

    /// Parses a fragment and appends its nodes; an error leaves the element as it was.
    pub fn append_xml_with_config(&mut self, source: &str, config: ParserConfig) -> (r: XmlResult<
        Range<usize>,
    >)
        ensures
            appended(*old(self), *final(self), r, fragment_parse(source@, config@)),
    {
        match parse_fragment_with_config(source, config) {
            Err(e) => Err(e),
            Ok(f) => Ok(self.append_fragment(f)),
        }
    }
}

/// Either the nodes were appended, or nothing changed.
pub open spec fn appended(
    before: XmlElement,
    after: XmlElement,
    r: XmlResult<Range<usize>>,
    m: Result<Seq<NodeModel>, ErrorModel>,
) -> bool {
    match r {
        Ok(p) => m is Ok && node_models(after.children@) == node_models(before.children@)
            + m->Ok_0 && keeps_rest_of_children(before, after) && p.start == before.children@.len()
            && p.end == after.children@.len(),
        Err(e) => m == Err::<Seq<NodeModel>, ErrorModel>(e@) && after == before,
    }
}

/// The name of the wrapper does not occur in the fragment.
pub proof fn lemma_wrapper_name_is_fresh(s: Seq<char>)
    ensures
        forall|i: int| 0 <= i <= s.len() ==> !starts_at(s, i, wrapper_name(s)),
{
    let stem = wrapper_stem(s);
    reveal_strlit("xml-fragment-");
    assert(stem.len() > 0);
    assert forall|i: int| 0 <= i <= s.len() implies !starts_at(s, i, wrapper_name(s)) by {
        if starts_at(s, i, wrapper_name(s)) {
            let n: nat = match longest_tail(s, stem, 0, None) {
                None => 0,
                Some(n) => n + 1,
            };
            lemma_with_underscores(stem, n);
            let w = with_underscores(stem, n);
            assert(w == wrapper_name(s));
            assert(s.subrange(i, i + w.len()) == w);
            assert(s.subrange(i, i + stem.len()) =~= stem) by {
                assert(s.subrange(i, i + stem.len()) =~= w.take(stem.len() as int));
            }
            assert(starts_at(s, i, stem));
            lemma_longest_tail(s, stem, 0, None, i);
            if n > 0 {
                lemma_underscores(s, i + stem.len(), n, w, i);
            }
        }
    }
}

/// What is behind the stem is underscores.
proof fn lemma_with_underscores(s: Seq<char>, n: nat)
    ensures
        with_underscores(s, n).len() == s.len() + n,
        with_underscores(s, n).take(s.len() as int) == s,
        forall|i: int| s.len() <= i < s.len() + n ==> with_underscores(s, n)[i] == '_',
    decreases n,
{
    if n == 0 {
        assert(s.take(s.len() as int) =~= s);
    } else {
        lemma_with_underscores(s, (n - 1) as nat);
        assert(with_underscores(s, n).take(s.len() as int) =~= with_underscores(
            s,
            (n - 1) as nat,
        ).take(s.len() as int));
    }
}

/// A run of underscores in the text is counted.
proof fn lemma_underscores(s: Seq<char>, at: int, n: nat, w: Seq<char>, i: int)
    requires
        0 <= at,
        n > 0,
        w.len() >= n,
        0 <= i,
        i + w.len() <= s.len(),
        at == i + w.len() - n,
        s.subrange(i, i + w.len()) == w,
        forall|k: int| w.len() - n <= k < w.len() ==> w[k] == '_',
    ensures
        underscores_at(s, at) >= n,
    decreases n,
{
    assert(s[at] == s.subrange(i, i + w.len())[at - i]);
    if n > 1 {
        lemma_underscores(s, at + 1, (n - 1) as nat, w, i);
    }
}

/// No run of underscores behind an occurrence is longer than the longest.
proof fn lemma_longest_tail(s: Seq<char>, t: Seq<char>, from: int, best: Option<nat>, i: int)
    requires
        0 <= from,
        t.len() > 0,
        best is Some || from <= i,
        from <= i ==> starts_at(s, i, t),
        i < from ==> best is Some && underscores_at(s, i + t.len()) <= best->Some_0,
    ensures
        longest_tail(s, t, from, best) is Some,
        underscores_at(s, i + t.len()) <= longest_tail(s, t, from, best)->Some_0,
    decreases s.len() - from,
{
    if from < s.len() {
        if starts_at(s, from, t) {
            lemma_longest_tail(
                s,
                t,
                from + 1,
                Some(larger(best, underscores_at(s, from + t.len()))),
                i,
            );
        } else {
            lemma_longest_tail(s, t, from + 1, best, i);
        }
    }
}

} // verus!
