//! Navigation in the record tables of a document.

use vstd::prelude::*;

use crate::document::{is_parse_of, DocumentModel, Parsed};
use crate::dom::{XmlNodeKind, XmlTreeStats};
use crate::error::ErrorModel;
use crate::flat::{child_places, laid_out, lemma_tree_laid_out, places_from, well_built};
use crate::grammar::{
    flat_models, flat_tree, raw_attributes, tree_attributes, FlatModel, FlatNode, RawAttribute,
    MAX_DOM_DEPTH,
};
use crate::records::{
    attribute_recorded, attributes_recorded, byte_table, lemma_range_text, node_recorded,
    nodes_recorded, raw_node_name, raw_node_value, raw_range, record_attributes, record_nodes,
    str_option, RawXmlAttribute, RawXmlNode, XmlViewNodeId,
};
use crate::text::{byte_len, lemma_byte_offset_at_least, str_eq};

verus! {

/// The nodes of the document in document order.
pub open spec fn nodes_of(m: DocumentModel) -> Seq<FlatModel> {
    flat_tree(m.root, 0, 0)
}

/// The attributes of the document in document order.
pub open spec fn attributes_of(m: DocumentModel) -> Seq<RawAttribute> {
    tree_attributes(m.root)
}

/// How many of the first `n` nodes are elements.
pub open spec fn elements_before(f: Seq<FlatModel>, n: int) -> nat
    decreases n,
{
    if n <= 0 {
        0
    } else if f[n - 1].kind == XmlNodeKind::Element {
        elements_before(f, n - 1) + 1
    } else {
        elements_before(f, n - 1)
    }
}

/// `stats` counts the nodes of the document.
pub open spec fn counts(m: DocumentModel, stats: XmlTreeStats) -> bool {
    &&& stats.elements == elements_before(nodes_of(m), nodes_of(m).len() as int)
    &&& stats.attributes == attributes_of(m).len()
    &&& stats.nodes == nodes_of(m).len()
}

/// The characters of the document at `p`.
pub open spec fn text_at(m: DocumentModel, p: (int, int)) -> Seq<char> {
    m.text.subrange(p.0, p.1)
}

/// The name of node `k`: that of an element or the target of an instruction.
pub open spec fn node_name_in(m: DocumentModel, k: int) -> Option<Seq<char>> {
    let f = nodes_of(m);
    if 0 <= k < f.len() && (f[k].kind == XmlNodeKind::Element || f[k].kind
        == XmlNodeKind::ProcessingInstruction) {
        Some(text_at(m, f[k].primary))
    } else {
        None
    }
}

/// The raw value of node `k`, if it is not an element.
pub open spec fn node_value_in(m: DocumentModel, k: int) -> Option<Seq<char>> {
    let f = nodes_of(m);
    if 0 <= k < f.len() {
        match f[k].kind {
            XmlNodeKind::Element => None,
            XmlNodeKind::ProcessingInstruction => Some(text_at(m, f[k].secondary)),
            _ => Some(text_at(m, f[k].primary)),
        }
    } else {
        None
    }
}

/// The name of attribute `k`.
pub open spec fn attribute_name_in(m: DocumentModel, k: int) -> Option<Seq<char>> {
    if 0 <= k < attributes_of(m).len() {
        Some(text_at(m, attributes_of(m)[k].name))
    } else {
        None
    }
}

/// The raw value of attribute `k`.
pub open spec fn attribute_value_in(m: DocumentModel, k: int) -> Option<Seq<char>> {
    if 0 <= k < attributes_of(m).len() {
        Some(text_at(m, attributes_of(m)[k].value))
    } else {
        None
    }
}

/// The places of the children of node `k`.
pub open spec fn children_in(m: DocumentModel, k: int) -> Seq<int> {
    child_places(nodes_of(m), k)
}

/// The names and raw values of the attributes of node `k`.
pub open spec fn node_attributes_in(m: DocumentModel, k: int) -> Seq<(Seq<char>, Seq<char>)> {
    let f = nodes_of(m);
    if 0 <= k < f.len() && f[k].kind == XmlNodeKind::Element {
        Seq::new(
            (f[k].secondary.1 - f[k].secondary.0) as nat,
            |i: int|
                (
                    text_at(m, attributes_of(m)[f[k].secondary.0 + i].name),
                    text_at(m, attributes_of(m)[f[k].secondary.0 + i].value),
                ),
        )
    } else {
        Seq::empty()
    }
}

/// The first of the pairs, from `i` on, whose first text is `name`.
pub open spec fn first_pair(a: Seq<(Seq<char>, Seq<char>)>, i: int, name: Seq<char>) -> Option<
    (Seq<char>, Seq<char>),
>
    decreases a.len() - i,
{
    if i < 0 || i >= a.len() {
        None
    } else if a[i].0 == name {
        Some(a[i])
    } else {
        first_pair(a, i + 1, name)
    }
}

/// Node `k` is an element with the name.
pub open spec fn is_element_named(m: DocumentModel, k: int, name: Seq<char>) -> bool {
    0 <= k < nodes_of(m).len() && nodes_of(m)[k].kind == XmlNodeKind::Element && node_name_in(m, k)
        == Some(name)
}

/// Those of the places, from `i` on, that hold an element with the name, behind `acc`.
pub open spec fn named_from(
    m: DocumentModel,
    places: Seq<int>,
    i: int,
    name: Seq<char>,
    acc: Seq<int>,
) -> Seq<int>
    decreases places.len() - i,
{
    if i < 0 || i >= places.len() {
        acc
    } else if is_element_named(m, places[i], name) {
        named_from(m, places, i + 1, name, acc.push(places[i]))
    } else {
        named_from(m, places, i + 1, name, acc)
    }
}

/// The first of the places, from `i` on, that holds an element with the name.
pub open spec fn first_named(m: DocumentModel, places: Seq<int>, i: int, name: Seq<char>) -> Option<
    int,
>
    decreases places.len() - i,
{
    if i < 0 || i >= places.len() {
        None
    } else if is_element_named(m, places[i], name) {
        Some(places[i])
    } else {
        first_named(m, places, i + 1, name)
    }
}

/// The tables record the document.
pub open spec fn recorded(
    m: DocumentModel,
    owner: u64,
    nodes: Seq<RawXmlNode>,
    attributes: Seq<RawXmlAttribute>,
) -> bool {
    &&& byte_len(m.text) <= u32::MAX
    &&& nodes_of(m).len() <= u32::MAX
    &&& nodes_recorded(m.text, nodes_of(m), owner, nodes)
    &&& attributes_recorded(m.text, attributes_of(m), owner, attributes)
    &&& laid_out(nodes_of(m), 0, 0, attributes_of(m).len() as int)
    &&& nodes_of(m).len() >= 1
    &&& nodes_of(m)[0].kind == XmlNodeKind::Element
    &&& well_built(m.root, MAX_DOM_DEPTH as int)
}

/// The places that identifiers name.
pub open spec fn places_of(v: Seq<XmlViewNodeId>) -> Seq<int> {
    Seq::new(v.len(), |i: int| v[i].0 as int)
}

/// An attribute in a document: its name and its raw value.
#[derive(Clone, Copy, Debug)]
pub struct XmlAttributeView<'a> {
    name: &'a str,
    raw_value: &'a str,
}

impl<'a> View for XmlAttributeView<'a> {
    type V = (Seq<char>, Seq<char>);

    closed spec fn view(&self) -> (Seq<char>, Seq<char>) {
        (self.name@, self.raw_value@)
    }
}

impl<'a> XmlAttributeView<'a> {
    /// Returns the name.
    pub fn name(self) -> (r: &'a str)
        ensures
            r@ == self@.0,
    {
        self.name
    }

    /// Returns the value as it is written in the source.
    pub fn raw_value(self) -> (r: &'a str)
        ensures
            r@ == self@.1,
    {
        self.raw_value
    }
}

/// The names and raw values of attributes.
pub open spec fn attribute_pairs(v: Seq<XmlAttributeView<'_>>) -> Seq<(Seq<char>, Seq<char>)> {
    Seq::new(v.len(), |i: int| v[i]@)
}

/// A source text with its tables.
#[derive(Clone, Copy)]
pub(crate) struct Tables<'t, 'a> {
    pub(crate) input: &'a str,
    pub(crate) nodes: &'t [RawXmlNode],
    pub(crate) attributes: &'t [RawXmlAttribute],
}

impl<'t, 'a> Tables<'t, 'a> {
    /// The tables record the document.
    pub(crate) open spec fn of(&self, m: DocumentModel, owner: u64) -> bool {
        self.input@ == m.text && recorded(m, owner, self.nodes@, self.attributes@)
    }

    pub(crate) fn node_name(
        self,
        id: XmlViewNodeId,
        Ghost(m): Ghost<DocumentModel>,
        Ghost(owner): Ghost<u64>,
    ) -> (r: Option<&'a str>)
        requires
            self.of(m, owner),
        ensures
            str_option(r) == node_name_in(m, id.0 as int),
    {
        if id.0 >= self.nodes.len() {
            return None;
        }
        let n = &self.nodes[id.0];
        proof {
            let e = nodes_of(m)[id.0 as int];
            assert(node_recorded(m.text, e, id.0 as int, owner, *n));
            lemma_range_text(m.text, e.primary, n.name_start, n.name_len);
        }
        raw_node_name(self.input, n)
    }

    pub(crate) fn node_value(
        self,
        id: XmlViewNodeId,
        Ghost(m): Ghost<DocumentModel>,
        Ghost(owner): Ghost<u64>,
    ) -> (r: Option<&'a str>)
        requires
            self.of(m, owner),
        ensures
            str_option(r) == node_value_in(m, id.0 as int),
    {
        if id.0 >= self.nodes.len() {
            return None;
        }
        let n = &self.nodes[id.0];
        proof {
            let e = nodes_of(m)[id.0 as int];
            assert(node_recorded(m.text, e, id.0 as int, owner, *n));
            lemma_range_text(m.text, e.primary, n.name_start, n.name_len);
            if e.kind != XmlNodeKind::Element {
                lemma_range_text(m.text, e.secondary, n.attribute_start, n.attribute_count);
            }
        }
        raw_node_value(self.input, n)
    }

    pub(crate) fn attribute_name(
        self,
        index: usize,
        Ghost(m): Ghost<DocumentModel>,
        Ghost(owner): Ghost<u64>,
    ) -> (r: Option<&'a str>)
        requires
            self.of(m, owner),
        ensures
            str_option(r) == attribute_name_in(m, index as int),
    {
        if index >= self.attributes.len() {
            return None;
        }
        let a = &self.attributes[index];
        proof {
            let e = attributes_of(m)[index as int];
            assert(attribute_recorded(m.text, e, owner, *a));
            lemma_range_text(m.text, e.name, a.name_start, a.name_len);
        }
        raw_range(self.input, a.name_start, a.name_len)
    }

    pub(crate) fn attribute_value(
        self,
        index: usize,
        Ghost(m): Ghost<DocumentModel>,
        Ghost(owner): Ghost<u64>,
    ) -> (r: Option<&'a str>)
        requires
            self.of(m, owner),
        ensures
            str_option(r) == attribute_value_in(m, index as int),
    {
        if index >= self.attributes.len() {
            return None;
        }
        let a = &self.attributes[index];
        proof {
            let e = attributes_of(m)[index as int];
            assert(attribute_recorded(m.text, e, owner, *a));
            lemma_range_text(m.text, e.value, a.value_start, a.value_len);
        }
        raw_range(self.input, a.value_start, a.value_len)
    }

    pub(crate) fn children(
        self,
        id: XmlViewNodeId,
        Ghost(m): Ghost<DocumentModel>,
        Ghost(owner): Ghost<u64>,
    ) -> (r: Vec<XmlViewNodeId>)
        requires
            self.of(m, owner),
        ensures
            places_of(r@) == children_in(m, id.0 as int),
            forall|i: int| 0 <= i < r@.len() ==> (#[trigger] r@[i]).0 < nodes_of(m).len(),
    {
        let mut out: Vec<XmlViewNodeId> = Vec::new();
        proof {
            assert(places_of(out@) =~= Seq::<int>::empty());
        }
        if id.0 >= self.nodes.len() {
            return out;
        }
        let n = &self.nodes[id.0];
        assert(node_recorded(m.text, nodes_of(m)[id.0 as int], id.0 as int, owner, *n));
        match n.kind {
            XmlNodeKind::Element => {},
            _ => {
                return out;
            },
        }
        let end: usize = n.next as usize;
        let mut k: usize = id.0 + 1;
        while k < end
            invariant
                self.of(m, owner),
                end <= nodes_of(m).len(),
                id.0 < nodes_of(m).len(),
                nodes_of(m)[id.0 as int].kind == XmlNodeKind::Element,
                nodes_of(m)[id.0 as int].next == end,
                forall|i: int| 0 <= i < out@.len() ==> (#[trigger] out@[i]).0 < nodes_of(m).len(),
                children_in(m, id.0 as int) == places_from(
                    nodes_of(m),
                    k as int,
                    end as int,
                    places_of(out@),
                ),
            decreases
                    if k < end {
                        end - k
                    } else {
                        0
                    },
        {
            let ghost before = out@;
            let c = &self.nodes[k];
            assert(node_recorded(m.text, nodes_of(m)[k as int], k as int, owner, *c));
            out.push(XmlViewNodeId(k));
            proof {
                assert(places_of(out@) =~= places_of(before).push(k as int));
            }
            k = c.next as usize;
        }
        out
    }

    pub(crate) fn node_attributes(
        self,
        id: XmlViewNodeId,
        Ghost(m): Ghost<DocumentModel>,
        Ghost(owner): Ghost<u64>,
    ) -> (r: Vec<XmlAttributeView<'a>>)
        requires
            self.of(m, owner),
        ensures
            attribute_pairs(r@) == node_attributes_in(m, id.0 as int),
    {
        let mut out: Vec<XmlAttributeView<'a>> = Vec::new();
        proof {
            assert(attribute_pairs(out@) =~= Seq::empty());
        }
        if id.0 >= self.nodes.len() {
            return out;
        }
        let n = &self.nodes[id.0];
        let ghost e = nodes_of(m)[id.0 as int];
        assert(node_recorded(m.text, e, id.0 as int, owner, *n));
        match n.kind {
            XmlNodeKind::Element => {},
            _ => {
                return out;
            },
        }
        let from: usize = n.attribute_start as usize;
        let count: usize = n.attribute_count as usize;
        proof {
            assert(self.attributes.len() == self.attributes@.len());
        }
        let mut k: usize = 0;
        while k < count
            invariant
                self.of(m, owner),
                k <= count,
                0 <= id.0 < nodes_of(m).len(),
                e == nodes_of(m)[id.0 as int],
                e.kind == XmlNodeKind::Element,
                e.secondary.0 == from,
                e.secondary.1 == from + count,
                from + count <= attributes_of(m).len(),
                from + count <= usize::MAX,
                out@.len() == k,
                forall|i: int|
                    0 <= i < k ==> (#[trigger] out@[i])@ == node_attributes_in(m, id.0 as int)[i],
            decreases count - k,
        {
            let name = self.attribute_name(from + k, Ghost(m), Ghost(owner));
            let value = self.attribute_value(from + k, Ghost(m), Ghost(owner));
            if let (Some(name), Some(raw_value)) = (name, value) {
                out.push(XmlAttributeView { name, raw_value });
            }
            k = k + 1;
        }
        proof {
            assert(attribute_pairs(out@) =~= node_attributes_in(m, id.0 as int));
        }
        out
    }

    pub(crate) fn node_attribute(
        self,
        id: XmlViewNodeId,
        name: &str,
        Ghost(m): Ghost<DocumentModel>,
        Ghost(owner): Ghost<u64>,
    ) -> (r: Option<XmlAttributeView<'a>>)
        requires
            self.of(m, owner),
        ensures
            match r {
                Some(x) => first_pair(node_attributes_in(m, id.0 as int), 0, name@) == Some(x@),
                None => first_pair(node_attributes_in(m, id.0 as int), 0, name@) is None,
            },
    {
        let all = self.node_attributes(id, Ghost(m), Ghost(owner));
        let ghost pairs = attribute_pairs(all@);
        let mut k: usize = 0;
        while k < all.len()
            invariant
                k <= all@.len(),
                pairs == attribute_pairs(all@),
                pairs == node_attributes_in(m, id.0 as int),
                first_pair(pairs, 0, name@) == first_pair(pairs, k as int, name@),
            decreases all@.len() - k,
        {
            let a = all[k];
            assert(pairs[k as int] == a@);
            if str_eq(a.name, name) {
                return Some(a);
            }
            k = k + 1;
        }
        None
    }

    pub(crate) fn is_named(
        self,
        id: XmlViewNodeId,
        name: &str,
        Ghost(m): Ghost<DocumentModel>,
        Ghost(owner): Ghost<u64>,
    ) -> (r: bool)
        requires
            self.of(m, owner),
        ensures
            r == is_element_named(m, id.0 as int, name@),
    {
        if id.0 >= self.nodes.len() {
            return false;
        }
        assert(node_recorded(
            m.text,
            nodes_of(m)[id.0 as int],
            id.0 as int,
            owner,
            self.nodes@[id.0 as int],
        ));
        match self.nodes[id.0].kind {
            XmlNodeKind::Element => match self.node_name(id, Ghost(m), Ghost(owner)) {
                Some(x) => str_eq(x, name),
                None => false,
            },
            _ => false,
        }
    }

    pub(crate) fn child(
        self,
        id: XmlViewNodeId,
        name: &str,
        Ghost(m): Ghost<DocumentModel>,
        Ghost(owner): Ghost<u64>,
    ) -> (r: Option<XmlViewNodeId>)
        requires
            self.of(m, owner),
        ensures
            match r {
                Some(x) => first_named(m, children_in(m, id.0 as int), 0, name@) == Some(x.0 as int)
                    && x.0 < nodes_of(m).len(),
                None => first_named(m, children_in(m, id.0 as int), 0, name@) is None,
            },
    {
        let all = self.children(id, Ghost(m), Ghost(owner));
        let ghost places = places_of(all@);
        let mut k: usize = 0;
        while k < all.len()
            invariant
                self.of(m, owner),
                k <= all@.len(),
                places == places_of(all@),
                places == children_in(m, id.0 as int),
                forall|i: int| 0 <= i < all@.len() ==> (#[trigger] all@[i]).0 < nodes_of(m).len(),
                first_named(m, places, 0, name@) == first_named(m, places, k as int, name@),
            decreases all@.len() - k,
        {
            let c = all[k];
            assert(places[k as int] == c.0);
            if self.is_named(c, name, Ghost(m), Ghost(owner)) {
                return Some(c);
            }
            k = k + 1;
        }
        None
    }

    pub(crate) fn children_named(
        self,
        id: XmlViewNodeId,
        name: &str,
        Ghost(m): Ghost<DocumentModel>,
        Ghost(owner): Ghost<u64>,
    ) -> (r: Vec<XmlViewNodeId>)
        requires
            self.of(m, owner),
        ensures
            places_of(r@) == named_from(m, children_in(m, id.0 as int), 0, name@, Seq::empty()),
            forall|i: int| 0 <= i < r@.len() ==> (#[trigger] r@[i]).0 < nodes_of(m).len(),
    {
        let all = self.children(id, Ghost(m), Ghost(owner));
        let ghost places = places_of(all@);
        let mut out: Vec<XmlViewNodeId> = Vec::new();
        proof {
            assert(places_of(out@) =~= Seq::<int>::empty());
        }
        let mut k: usize = 0;
        while k < all.len()
            invariant
                self.of(m, owner),
                k <= all@.len(),
                places == places_of(all@),
                places == children_in(m, id.0 as int),
                forall|i: int| 0 <= i < all@.len() ==> (#[trigger] all@[i]).0 < nodes_of(m).len(),
                forall|i: int| 0 <= i < out@.len() ==> (#[trigger] out@[i]).0 < nodes_of(m).len(),
                named_from(m, places, 0, name@, Seq::empty()) == named_from(
                    m,
                    places,
                    k as int,
                    name@,
                    places_of(out@),
                ),
            decreases all@.len() - k,
        {
            let c = all[k];
            assert(places[k as int] == c.0);
            if self.is_named(c, name, Ghost(m), Ghost(owner)) {
                let ghost before = out@;
                out.push(c);
                proof {
                    assert(places_of(out@) =~= places_of(before).push(c.0 as int));
                }
            }
            k = k + 1;
        }
        out
    }
}

/// The identifiers of `n` nodes.
pub(crate) fn identifiers(n: usize) -> (r: Vec<XmlViewNodeId>)
    ensures
        r@ == Seq::new(n as nat, |i: int| XmlViewNodeId(i as usize)),
{
    let mut out: Vec<XmlViewNodeId> = Vec::new();
    let mut k: usize = 0;
    while k < n
        invariant
            k <= n,
            out@.len() == k,
            forall|i: int| 0 <= i < k ==> out@[i] == XmlViewNodeId(i as usize),
        decreases n - k,
    {
        out.push(XmlViewNodeId(k));
        k = k + 1;
    }
    proof {
        assert(out@ =~= Seq::new(n as nat, |i: int| XmlViewNodeId(i as usize)));
    }
    out
}

/// Counts the nodes.
fn count_elements(nodes: &Vec<FlatNode>) -> (r: usize)
    ensures
        r == elements_before(flat_models(nodes@), nodes@.len() as int),
{
    let mut total: usize = 0;
    let mut k: usize = 0;
    while k < nodes.len()
        invariant
            k <= nodes@.len(),
            total <= k,
            total == elements_before(flat_models(nodes@), k as int),
        decreases nodes@.len() - k,
    {
        assert(flat_models(nodes@)[k as int].kind == nodes@[k as int].kind);
        match nodes[k].kind {
            XmlNodeKind::Element => {
                total = total + 1;
            },
            _ => {},
        }
        k = k + 1;
    }
    total
}

/// Counts the nodes of a document.
pub(crate) fn count_nodes(p: &Parsed, Ghost(m): Ghost<DocumentModel>) -> (r: XmlTreeStats)
    requires
        is_parse_of(*p, m),
    ensures
        counts(m, r),
{
    let elements: usize = count_elements(&p.nodes);
    proof {
        assert(flat_models(p.nodes@).len() == p.nodes@.len());
        assert(raw_attributes(p.attributes@).len() == p.attributes@.len());
    }
    XmlTreeStats { elements, attributes: p.attributes.len(), nodes: p.nodes.len() }
}

/// The error for a document that is too large for its records.
pub open spec fn too_large(s: Seq<char>) -> ErrorModel {
    ErrorModel {
        kind: crate::error::ErrorKindModel::InvalidDocumentStructure,
        byte: byte_len(s) as int,
    }
}

/// Records a document in tables, if it is not too large.
pub(crate) fn record(
    p: &Parsed,
    s: &[char],
    owner: u64,
    Ghost(m): Ghost<DocumentModel>,
) -> (r: Option<(Vec<RawXmlNode>, Vec<RawXmlAttribute>)>)
    requires
        is_parse_of(*p, m),
        s@ == m.text,
        byte_len(m.text) <= usize::MAX,
        well_built(m.root, MAX_DOM_DEPTH as int),
        m.root is Element,
    ensures
        match r {
            Some((nodes, attributes)) => recorded(m, owner, nodes@, attributes@),
            None => byte_len(m.text) > u32::MAX,
        },
{
    let table = match byte_table(s) {
        Some(t) => t,
        None => {
            return None;
        },
    };
    proof {
        lemma_byte_offset_at_least(m.text, m.text.len() as int);
        lemma_tree_laid_out(m.root, 0, 0, MAX_DOM_DEPTH as int);
        let f = nodes_of(m);
        assert(f.len() == p.nodes@.len());
        assert(raw_attributes(p.attributes@).len() == p.attributes@.len());
        assert forall|k: int| 0 <= k < p.nodes@.len() implies (#[trigger] p.nodes@[k]).next
            <= u32::MAX && (p.nodes@[k].kind == XmlNodeKind::Element ==> p.nodes@[k].secondary.0
            <= p.nodes@[k].secondary.1 <= u32::MAX) by {
            assert(f[k] == p.nodes@[k]@);
        }
    }
    let nodes = record_nodes(&p.nodes, &table, owner, Ghost(m.text), Ghost(nodes_of(m)));
    let attributes = record_attributes(
        &p.attributes,
        &table,
        owner,
        Ghost(m.text),
        Ghost(attributes_of(m)),
    );
    Some((nodes, attributes))
}

} // verus!
