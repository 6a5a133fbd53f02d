//! DOM node records of the HTML parser.
use vstd::prelude::*;
use crate::table::Table;
use crate::text::str_eq;

verus! {

pub const HTML_NAMESPACE: &'static str = "http://www.w3.org/1999/xhtml";
pub const MATHML_NAMESPACE: &'static str = "http://www.w3.org/1998/Math/MathML";
pub const SVG_NAMESPACE: &'static str = "http://www.w3.org/2000/svg";
pub const XLINK_NAMESPACE: &'static str = "http://www.w3.org/1999/xlink";
pub const XML_NAMESPACE: &'static str = "http://www.w3.org/XML/1998/namespace";
pub const XMLNS_NAMESPACE: &'static str = "http://www.w3.org/2000/xmlns/";

/// Different types of nodes
#[derive(Clone, Copy, Debug, PartialEq, Eq, Structural)]
pub enum NodeType {
    Document,
    Text,
    Comment,
    Element,
}

/// Data of a document node.
#[derive(Clone, Copy, Debug, PartialEq, Eq, Structural)]
pub struct DocumentData {}

impl DocumentData {
    pub fn new() -> (r: DocumentData) {
        DocumentData {  }
    }
}

/// Data of a text node.
#[derive(Debug)]
pub struct TextData {
    pub value: String,
}

impl TextData {
    pub fn with_value(value: &str) -> (r: TextData)
        ensures
            r.value@ == value@,
    {
        TextData { value: value.to_owned() }
    }
}

/// Data of a comment node.
#[derive(Debug)]
pub struct CommentData {
    pub value: String,
}

impl CommentData {
    pub fn with_value(value: &str) -> (r: CommentData)
        ensures
            r.value@ == value@,
    {
        CommentData { value: value.to_owned() }
    }
}

/// The attributes of an element, by name.
#[derive(Debug)]
pub struct ElementAttributes {
    pub table: Table<String>,
}

impl ElementAttributes {
    /// The value of the attribute `name`, as characters.
    pub open spec fn value_of(self, name: Seq<char>) -> Option<Seq<char>> {
        match self.table.value_of(name) {
            Some(v) => Some(v@),
            None => None,
        }
    }

    pub open spec fn wf(self) -> bool {
        self.table.wf()
    }

    pub fn new() -> (r: ElementAttributes)
        ensures
            r.wf(),
            r.table.entries@.len() == 0,
            forall|n: Seq<char>| r.value_of(n) is None,
    {
        ElementAttributes { table: Table::new() }
    }

    /// Sets the attribute `name` to `value`.
    pub fn insert(&mut self, name: &str, value: &str)
        requires
            old(self).wf(),
        ensures
            final(self).wf(),
            final(self).value_of(name@) == Some(value@),
            forall|n: Seq<char>| n != name@ ==> final(self).value_of(n) == old(self).value_of(n),
    {
        self.table.insert(name, value.to_owned());
    }

    /// True when the attribute `name` is set.
    pub fn contains(&self, name: &str) -> (r: bool)
        ensures
            r == self.value_of(name@) is Some,
    {
        self.table.index(name).is_some()
    }

    /// The value of the attribute `name`.
    pub fn get(&self, name: &str) -> (r: Option<&String>)
        ensures
            match self.value_of(name@) {
                Some(v) => r is Some && r->0@ == v,
                None => r is None,
            },
    {
        self.table.get(name)
    }

    /// Removes the attribute `name`.
    pub fn remove(&mut self, name: &str)
        requires
            old(self).wf(),
        ensures
            final(self).wf(),
            final(self).value_of(name@) is None,
            forall|n: Seq<char>| n != name@ ==> final(self).value_of(n) == old(self).value_of(n),
    {
        self.table.remove(name);
    }

    /// Removes every attribute.
    pub fn clear(&mut self)
        ensures
            final(self).wf(),
            forall|n: Seq<char>| final(self).value_of(n) is None,
            final(self).table.entries@.len() == 0,
    {
        self.table.clear();
    }

    /// True when no attribute is set.
    pub fn is_empty(&self) -> (r: bool)
        ensures
            r == (self.table.entries@.len() == 0),
    {
        self.table.is_empty()
    }
}

/// The value that the last pair named `n` among the first `k` pairs gives.
pub open spec fn last_value(pairs: Seq<(String, String)>, n: Seq<char>, k: int) -> Option<Seq<char>>
    decreases k,
{
    if k <= 0 || k > pairs.len() {
        None
    } else if pairs[k - 1].0@ == n {
        Some(pairs[k - 1].1@)
    } else {
        last_value(pairs, n, k - 1)
    }
}

/// Data of an element node.
#[derive(Debug)]
pub struct ElementData {
    pub name: String,
    pub attributes: ElementAttributes,
}

impl ElementData {
    /// An element with the given name and attributes (a later pair replaces an
    /// earlier one of the same name).
    pub fn with_name_and_attributes(name: &str, attributes: &Vec<(String, String)>) -> (r: ElementData)
        ensures
            r.name@ == name@,
            r.attributes.wf(),
            forall|n: Seq<char>| #[trigger] r.attributes.value_of(n) == last_value(attributes@, n, attributes@.len() as int),
    {
        let mut attrs = ElementAttributes::new();
        let mut k: usize = 0;
        while k < attributes.len()
            invariant
                k <= attributes@.len(),
                attrs.wf(),
                forall|n: Seq<char>| #[trigger] attrs.value_of(n) == last_value(attributes@, n, k as int),
            decreases attributes@.len() - k,
        {
            attrs.insert(attributes[k].0.as_str(), attributes[k].1.as_str());
            k = k + 1;
        }
        ElementData { name: name.to_owned(), attributes: attrs }
    }
}

/// Different type of node data
#[derive(Debug)]
pub enum NodeData {
    Document(DocumentData),
    Text(TextData),
    Comment(CommentData),
    Element(ElementData),
}

/// Two pieces of node data are equal: same kind, same text, or same element name
/// and the same attributes with the same values.
pub open spec fn same_data(a: NodeData, b: NodeData) -> bool {
    match (a, b) {
        (NodeData::Document(_), NodeData::Document(_)) => true,
        (NodeData::Text(x), NodeData::Text(y)) => x.value@ == y.value@,
        (NodeData::Comment(x), NodeData::Comment(y)) => x.value@ == y.value@,
        (NodeData::Element(x), NodeData::Element(y)) => x.name@ == y.name@ && forall|n: Seq<char>|
            #[trigger] x.attributes.value_of(n) == y.attributes.value_of(n),
        _ => false,
    }
}

/// Every attribute of `a` has the same value in `b`.
fn attributes_within(a: &ElementAttributes, b: &ElementAttributes) -> (r: bool)
    requires
        a.wf(),
    ensures
        r == forall|n: Seq<char>| #[trigger] a.value_of(n) is Some ==> a.value_of(n) == b.value_of(n),
{
    let mut k: usize = 0;
    while k < a.table.entries.len()
        invariant
            a.wf(),
            k <= a.table.entries@.len(),
            forall|i: int| 0 <= i < k ==> #[trigger] b.value_of(a.table.entries@[i].0@) == Some(a.table.entries@[i].1@),
        decreases a.table.entries@.len() - k,
    {
        let key = a.table.entries[k].0.as_str();
        match b.get(key) {
            Some(v) => {
                if !str_eq(v.as_str(), a.table.entries[k].1.as_str()) {
                    proof {
                        crate::table::lemma_index_unique(a.table.entries@, key@, k as int);
                        assert(a.value_of(key@) is Some && a.value_of(key@) != b.value_of(key@));
                    }
                    return false;
                }
            },
            None => {
                proof {
                    crate::table::lemma_index_unique(a.table.entries@, key@, k as int);
                    assert(a.value_of(key@) is Some && a.value_of(key@) != b.value_of(key@));
                }
                return false;
            },
        }
        k = k + 1;
    }
    proof {
        assert forall|n: Seq<char>| #[trigger] a.value_of(n) is Some implies a.value_of(n) == b.value_of(n) by {
            crate::table::lemma_index_from(a.table.entries@, n, 0);
        }
    }
    true
}

/// Compares two pieces of node data (see `same_data`).
pub fn data_equal(a: &NodeData, b: &NodeData) -> (r: bool)
    requires
        a matches NodeData::Element(x) ==> x.attributes.wf(),
        b matches NodeData::Element(y) ==> y.attributes.wf(),
    ensures
        r == same_data(*a, *b),
{
    match (a, b) {
        (NodeData::Document(_), NodeData::Document(_)) => true,
        (NodeData::Text(x), NodeData::Text(y)) => str_eq(x.value.as_str(), y.value.as_str()),
        (NodeData::Comment(x), NodeData::Comment(y)) => str_eq(x.value.as_str(), y.value.as_str()),
        (NodeData::Element(x), NodeData::Element(y)) => {
            let r = str_eq(x.name.as_str(), y.name.as_str()) && attributes_within(&x.attributes, &y.attributes)
                && attributes_within(&y.attributes, &x.attributes);
            proof {
                if r {
                    assert forall|n: Seq<char>| #[trigger] x.attributes.value_of(n) == y.attributes.value_of(n) by {
                        if x.attributes.value_of(n) is None {
                            assert(y.attributes.value_of(n) is Some ==> y.attributes.value_of(n) == x.attributes.value_of(n));
                        }
                    }
                }
            }
            r
        },
        _ => false,
    }
}

/// Id used to identify a node
#[derive(Clone, Copy, Debug, PartialEq, Eq, Structural, Hash)]
pub struct NodeId(pub usize);

impl From<NodeId> for usize {
    fn from(value: NodeId) -> (r: usize) {
        value.0
    }
}

impl vstd::std_specs::convert::FromSpecImpl<NodeId> for usize {
    open spec fn obeys_from_spec() -> bool {
        true
    }

    open spec fn from_spec(v: NodeId) -> usize {
        v.0
    }
}

impl From<usize> for NodeId {
    fn from(value: usize) -> (r: NodeId) {
        NodeId(value)
    }
}

impl vstd::std_specs::convert::FromSpecImpl<usize> for NodeId {
    open spec fn obeys_from_spec() -> bool {
        true
    }

    open spec fn from_spec(v: usize) -> NodeId {
        NodeId(v)
    }
}

impl Default for NodeId {
    fn default() -> (r: NodeId)
        ensures
            r.0 == 0,
    {
        NodeId(0)
    }
}

/// The id of the root (document) node.
pub const ROOT_NODE: usize = 0;

impl NodeId {
    pub fn root() -> (r: NodeId)
        ensures
            r.0 == ROOT_NODE,
    {
        NodeId(ROOT_NODE)
    }

    pub fn is_positive(&self) -> (r: bool)
        ensures
            r == (self.0 > 0),
    {
        self.0 > 0
    }

    pub fn is_root(&self) -> (r: bool)
        ensures
            r == (self.0 == ROOT_NODE),
    {
        self.0 == ROOT_NODE
    }

    /// The id after this one.
    pub fn next(&self) -> (r: NodeId)
        requires
            self.0 < usize::MAX,
        ensures
            r.0 == self.0 + 1,
    {
        NodeId(self.0 + 1)
    }

    /// The id before this one.
    pub fn prev(&self) -> (r: NodeId)
        requires
            self.0 > 0,
        ensures
            r.0 == self.0 - 1,
    {
        NodeId(self.0 - 1)
    }
}

/// The HTML elements that are considered formatting elements
pub open spec fn formatting_html_names() -> Seq<&'static str> {
    seq!["a", "b", "big", "code", "em", "font", "i", "nobr", "s", "small", "strike", "strong", "tt", "u"]
}

/// The HTML elements that are considered special elements
pub open spec fn special_html_names() -> Seq<&'static str> {
    seq![
        "address", "applet", "area", "article", "aside", "base", "basefont", "bgsound",
        "blockquote", "body", "br", "button", "caption", "center", "col", "colgroup", "dd",
        "details", "dir", "div", "dl", "dt", "embed", "fieldset", "figcaption", "figure",
        "footer", "form", "frame", "frameset", "h1", "h2", "h3", "h4", "h5", "h6", "head",
        "header", "hgroup", "hr", "html", "iframe", "img", "input", "keygen", "li", "link",
        "listing", "main", "marquee", "menu", "meta", "nav", "noembed", "noframes", "noscript",
        "object", "ol", "p", "param", "plaintext", "pre", "script", "search", "section",
        "select", "source", "style", "summary", "table", "tbody", "td", "template", "textarea",
        "tfoot", "th", "thead", "title", "tr", "track", "ul", "wbr", "xmp",
    ]
}

/// The MathML elements that are considered special elements
pub open spec fn special_mathml_names() -> Seq<&'static str> {
    seq!["mi", "mo", "mn", "ms", "mtext", "annotation-xml"]
}

/// The SVG elements that are considered special elements
pub open spec fn special_svg_names() -> Seq<&'static str> {
    seq!["foreignObject", "desc", "title"]
}

/// The HTML elements that are considered formatting elements
pub fn formatting_html_elements() -> (r: Vec<&'static str>)
    ensures
        r@ == formatting_html_names(),
{
    let r = vec!["a", "b", "big", "code", "em", "font", "i", "nobr", "s", "small", "strike", "strong", "tt", "u"];
    assert(r@ =~= formatting_html_names());
    r
}

/// The HTML elements that are considered special elements
pub fn special_html_elements() -> (r: Vec<&'static str>)
    ensures
        r@ == special_html_names(),
{
    let r = vec![
        "address", "applet", "area", "article", "aside", "base", "basefont", "bgsound",
        "blockquote", "body", "br", "button", "caption", "center", "col", "colgroup", "dd",
        "details", "dir", "div", "dl", "dt", "embed", "fieldset", "figcaption", "figure",
        "footer", "form", "frame", "frameset", "h1", "h2", "h3", "h4", "h5", "h6", "head",
        "header", "hgroup", "hr", "html", "iframe", "img", "input", "keygen", "li", "link",
        "listing", "main", "marquee", "menu", "meta", "nav", "noembed", "noframes", "noscript",
        "object", "ol", "p", "param", "plaintext", "pre", "script", "search", "section",
        "select", "source", "style", "summary", "table", "tbody", "td", "template", "textarea",
        "tfoot", "th", "thead", "title", "tr", "track", "ul", "wbr", "xmp",
    ];
    assert(r@ =~= special_html_names());
    r
}

/// The MathML elements that are considered special elements
pub fn special_mathml_elements() -> (r: Vec<&'static str>)
    ensures
        r@ == special_mathml_names(),
{
    let r = vec!["mi", "mo", "mn", "ms", "mtext", "annotation-xml"];
    assert(r@ =~= special_mathml_names());
    r
}

/// The SVG elements that are considered special elements
pub fn special_svg_elements() -> (r: Vec<&'static str>)
    ensures
        r@ == special_svg_names(),
{
    let r = vec!["foreignObject", "desc", "title"];
    assert(r@ =~= special_svg_names());
    r
}

/// `name` is one of `names`.
pub open spec fn listed_name(names: Seq<&'static str>, name: Seq<char>) -> bool {
    exists|i: int| 0 <= i < names.len() && #[trigger] names[i]@ == name
}

fn in_list(names: &Vec<&'static str>, name: &str) -> (r: bool)
    ensures
        r == listed_name(names@, name@),
{
    let mut k: usize = 0;
    while k < names.len()
        invariant
            k <= names@.len(),
            forall|i: int| 0 <= i < k ==> names@[i]@ != name@,
        decreases names@.len() - k,
    {
        if str_eq(names[k], name) {
            return true;
        }
        k = k + 1;
    }
    false
}

/// The namespace is present and equal to `ns`.
pub open spec fn in_namespace(namespace: Option<String>, ns: &str) -> bool {
    namespace matches Some(n) && n@ == ns@
}

fn namespace_is(namespace: &Option<String>, ns: &str) -> (r: bool)
    ensures
        r == in_namespace(*namespace, ns),
{
    match namespace {
        Some(n) => str_eq(n.as_str(), ns),
        None => false,
    }
}

/// The kind of node that data belongs to.
pub open spec fn type_of_data(data: NodeData) -> NodeType {
    match data {
        NodeData::Document(_) => NodeType::Document,
        NodeData::Text(_) => NodeType::Text,
        NodeData::Comment(_) => NodeType::Comment,
        NodeData::Element(_) => NodeType::Element,
    }
}

pub trait NodeTrait {
    spec fn spec_type_of(&self) -> NodeType;

    /// Return the token type of the given token
    fn type_of(&self) -> (r: NodeType)
        ensures
            r == self.spec_type_of(),
    ;
}

/// Node that resembles a DOM node
#[derive(Debug)]
pub struct Inner {
    /// ID of the node, 0 is always the root / document node
    pub id: NodeId,
    /// Named ID of the node, from the "id" attribute on an HTML element
    pub named_id: Option<String>,
    /// parent of the node, if any
    pub parent: Option<NodeId>,
    /// children of the node
    pub children: Vec<NodeId>,
    /// name of the node, or empty when it's not a tag
    pub name: String,
    /// namespace of the node
    pub namespace: Option<String>,
    /// actual data of the node
    pub data: NodeData,
}

impl NodeTrait for Inner {
    open spec fn spec_type_of(&self) -> NodeType {
        type_of_data(self.data)
    }

    fn type_of(&self) -> (r: NodeType) {
        match &self.data {
            NodeData::Document(_) => NodeType::Document,
            NodeData::Text(_) => NodeType::Text,
            NodeData::Comment(_) => NodeType::Comment,
            NodeData::Element(_) => NodeType::Element,
        }
    }
}

/// Two optional texts are both absent or both present and equal.
pub open spec fn same_text_option(a: Option<String>, b: Option<String>) -> bool {
    match (a, b) {
        (None, None) => true,
        (Some(x), Some(y)) => x@ == y@,
        _ => false,
    }
}

fn text_option_equal(a: &Option<String>, b: &Option<String>) -> (r: bool)
    ensures
        r == same_text_option(*a, *b),
{
    match (a, b) {
        (None, None) => true,
        (Some(x), Some(y)) => str_eq(x.as_str(), y.as_str()),
        _ => false,
    }
}

impl Inner {
    /// The attributes of an element are kept one per name.
    pub open spec fn wf(self) -> bool {
        self.data matches NodeData::Element(e) ==> e.attributes.wf()
    }

    /// This will only compare against the tag, namespace and attributes. Both nodes could
    /// still have other parents and children.
    pub fn matches_tag_and_attrs(&self, other: &Self) -> (r: bool)
        requires
            self.wf(),
            other.wf(),
        ensures
            r == (self.name@ == other.name@ && same_text_option(self.namespace, other.namespace)
                && same_data(self.data, other.data)),
    {
        str_eq(self.name.as_str(), other.name.as_str()) && text_option_equal(&self.namespace, &other.namespace)
            && data_equal(&self.data, &other.data)
    }

    /// Returns true if the given node is a "formatting" node
    pub fn is_formatting(&self) -> (r: bool)
        ensures
            r == (in_namespace(self.namespace, HTML_NAMESPACE) && listed_name(formatting_html_names(), self.name@)),
    {
        namespace_is(&self.namespace, HTML_NAMESPACE) && in_list(&formatting_html_elements(), self.name.as_str())
    }

    /// Returns true if the given node is "special" node based on the namespace and name
    pub fn is_special(&self) -> (r: bool)
        ensures
            r == ((in_namespace(self.namespace, HTML_NAMESPACE) && listed_name(special_html_names(), self.name@))
                || (in_namespace(self.namespace, MATHML_NAMESPACE) && listed_name(special_mathml_names(), self.name@))
                || (in_namespace(self.namespace, SVG_NAMESPACE) && listed_name(special_svg_names(), self.name@))),
    {
        if namespace_is(&self.namespace, HTML_NAMESPACE) && in_list(&special_html_elements(), self.name.as_str()) {
            return true;
        }
        if namespace_is(&self.namespace, MATHML_NAMESPACE) && in_list(&special_mathml_elements(), self.name.as_str()) {
            return true;
        }
        if namespace_is(&self.namespace, SVG_NAMESPACE) && in_list(&special_svg_elements(), self.name.as_str()) {
            return true;
        }
        false
    }

    /// Check if node has a named ID
    pub fn has_named_id(&self) -> (r: bool)
        ensures
            r == (self.spec_type_of() == NodeType::Element && self.named_id is Some),
    {
        if self.type_of() != NodeType::Element {
            return false;
        }
        self.named_id.is_some()
    }

    /// Set named ID (only applies to Element type, does nothing otherwise)
    pub fn set_named_id(&mut self, named_id: &str)
        requires
            old(self).wf(),
        ensures
            final(self).wf(),
            old(self).spec_type_of() != NodeType::Element ==> *final(self) == *old(self),
            old(self).spec_type_of() == NodeType::Element ==> {
                &&& (final(self).named_id matches Some(s) && s@ == named_id@)
                &&& (final(self).data matches NodeData::Element(e) && e.attributes.value_of("id"@) == Some(named_id@))
                &&& (old(self).data matches NodeData::Element(e0) && (final(self).data matches NodeData::Element(e1)
                    && e0.name == e1.name && forall|n: Seq<char>| n != "id"@ ==> #[trigger] e1.attributes.value_of(n) == e0.attributes.value_of(n)))
                &&& final(self).id == old(self).id && final(self).parent == old(self).parent
                &&& final(self).children == old(self).children && final(self).name == old(self).name
                &&& final(self).namespace == old(self).namespace
            },
    {
        if self.type_of() == NodeType::Element {
            self.named_id = Some(named_id.to_owned());
            match &mut self.data {
                NodeData::Element(element) => {
                    element.attributes.insert("id", named_id);
                },
                _ => {},
            }
        }
    }

    /// Get named ID. If not present or type is not Element, returns None
    pub fn get_named_id(&self) -> (r: Option<String>)
        ensures
            self.spec_type_of() == NodeType::Element && self.named_id is Some ==> (r matches Some(s) && s@ == self.named_id->0@),
            !(self.spec_type_of() == NodeType::Element && self.named_id is Some) ==> r is None,
    {
        if self.type_of() != NodeType::Element {
            return None;
        }
        if !self.has_named_id() {
            return None;
        }
        match &self.named_id {
            Some(s) => Some(s.clone()),
            None => None,
        }
    }
}

fn copy_pairs(v: &Vec<(String, String)>) -> (r: Vec<(String, String)>)
    ensures
        r@ == v@,
{
    let mut r: Vec<(String, String)> = Vec::new();
    let mut k: usize = 0;
    while k < v.len()
        invariant
            k <= v@.len(),
            r@ == v@.subrange(0, k as int),
        decreases v@.len() - k,
    {
        r.push((v[k].0.clone(), v[k].1.clone()));
        k = k + 1;
        assert(r@ =~= v@.subrange(0, k as int));
    }
    assert(r@ =~= v@);
    r
}

impl Clone for ElementAttributes {
    fn clone(&self) -> (r: ElementAttributes)
        ensures
            r.table.entries@ == self.table.entries@,
    {
        ElementAttributes { table: Table { entries: copy_pairs(&self.table.entries) } }
    }
}

impl Clone for NodeData {
    fn clone(&self) -> (r: NodeData)
        ensures
            same_data(*self, r),
            self matches NodeData::Element(e) ==> (r matches NodeData::Element(f) && f.attributes.table.entries@
                == e.attributes.table.entries@),
    {
        match self {
            NodeData::Document(d) => NodeData::Document(*d),
            NodeData::Text(t) => NodeData::Text(TextData { value: t.value.clone() }),
            NodeData::Comment(c) => NodeData::Comment(CommentData { value: c.value.clone() }),
            NodeData::Element(e) => NodeData::Element(
                ElementData { name: e.name.clone(), attributes: e.attributes.clone() },
            ),
        }
    }
}

fn copy_text_option(v: &Option<String>) -> (r: Option<String>)
    ensures
        r == *v,
{
    match v {
        Some(s) => Some(s.clone()),
        None => None,
    }
}

fn copy_ids(v: &Vec<NodeId>) -> (r: Vec<NodeId>)
    ensures
        r@ == v@,
{
    let mut r: Vec<NodeId> = Vec::new();
    let mut k: usize = 0;
    while k < v.len()
        invariant
            k <= v@.len(),
            r@ == v@.subrange(0, k as int),
        decreases v@.len() - k,
    {
        r.push(v[k]);
        k = k + 1;
        assert(r@ =~= v@.subrange(0, k as int));
    }
    assert(r@ =~= v@);
    r
}

impl Clone for Inner {
    fn clone(&self) -> (r: Inner)
        ensures
            r.id == self.id,
            r.named_id == self.named_id,
            r.parent == self.parent,
            r.children@ == self.children@,
            r.name == self.name,
            r.namespace == self.namespace,
            same_data(self.data, r.data),
            self.wf() ==> r.wf(),
    {
        Inner {
            id: self.id,
            named_id: copy_text_option(&self.named_id),
            parent: self.parent,
            children: copy_ids(&self.children),
            name: self.name.clone(),
            namespace: copy_text_option(&self.namespace),
            data: self.data.clone(),
        }
    }
}

/// A DOM node.
#[derive(Debug)]
pub struct Node(pub Inner);

/// A node as it is created: no id (the root's), no parent, no children, no named id.
pub open spec fn fresh(i: Inner) -> bool {
    &&& i.id == NodeId(0)
    &&& i.named_id is None
    &&& i.parent is None
    &&& i.children@.len() == 0
}

impl Clone for Node {
    fn clone(&self) -> (r: Node)
        ensures
            r.0.id == self.0.id,
            r.0.named_id == self.0.named_id,
            r.0.parent == self.0.parent,
            r.0.children@ == self.0.children@,
            r.0.name == self.0.name,
            r.0.namespace == self.0.namespace,
            same_data(self.0.data, r.0.data),
            self.0.wf() ==> r.0.wf(),
    {
        Node(self.0.clone())
    }
}

impl NodeTrait for Node {
    open spec fn spec_type_of(&self) -> NodeType {
        type_of_data(self.0.data)
    }

    fn type_of(&self) -> (r: NodeType) {
        self.0.type_of()
    }
}

impl Node {
    /// Create a new document node
    pub fn new_document() -> (r: Node)
        ensures
            fresh(r.0),
            r.0.wf(),
            r.0.name@ == Seq::<char>::empty(),
            r.0.namespace is None,
            r.0.data is Document,
    {
        Node(
            Inner {
                id: NodeId(0),
                named_id: None,
                parent: None,
                children: Vec::new(),
                data: NodeData::Document(DocumentData::new()),
                name: String::new(),
                namespace: None,
            },
        )
    }

    /// Create a new element node with the given name and attributes and namespace
    pub fn new_element(name: &str, attributes: &Vec<(String, String)>, namespace: &str) -> (r: Node)
        ensures
            fresh(r.0),
            r.0.wf(),
            r.0.name@ == name@,
            r.0.namespace matches Some(ns) && ns@ == namespace@,
            r.0.data matches NodeData::Element(e) && e.name@ == name@ && forall|n: Seq<char>|
                #[trigger] e.attributes.value_of(n) == last_value(attributes@, n, attributes@.len() as int),
    {
        Node(
            Inner {
                id: NodeId(0),
                named_id: None,
                parent: None,
                children: Vec::new(),
                data: NodeData::Element(ElementData::with_name_and_attributes(name, attributes)),
                name: name.to_owned(),
                namespace: Some(namespace.to_owned()),
            },
        )
    }

    /// Create a new comment node
    pub fn new_comment(value: &str) -> (r: Node)
        ensures
            fresh(r.0),
            r.0.wf(),
            r.0.name@ == Seq::<char>::empty(),
            r.0.namespace is None,
            r.0.data matches NodeData::Comment(c) && c.value@ == value@,
    {
        Node(
            Inner {
                id: NodeId(0),
                named_id: None,
                parent: None,
                children: Vec::new(),
                data: NodeData::Comment(CommentData::with_value(value)),
                name: String::new(),
                namespace: None,
            },
        )
    }

    /// Create a new text node
    pub fn new_text(value: &str) -> (r: Node)
        ensures
            fresh(r.0),
            r.0.wf(),
            r.0.name@ == Seq::<char>::empty(),
            r.0.namespace is None,
            r.0.data matches NodeData::Text(t) && t.value@ == value@,
    {
        Node(
            Inner {
                id: NodeId(0),
                named_id: None,
                parent: None,
                children: Vec::new(),
                data: NodeData::Text(TextData::with_value(value)),
                name: String::new(),
                namespace: None,
            },
        )
    }

    pub fn get_named_id(&self) -> (r: Option<String>)
        ensures
            self.0.spec_type_of() == NodeType::Element && self.0.named_id is Some ==> (r matches Some(s) && s@ == self.0.named_id->0@),
            !(self.0.spec_type_of() == NodeType::Element && self.0.named_id is Some) ==> r is None,
    {
        self.0.get_named_id()
    }

    pub fn set_named_id(&mut self, named_id: &str)
        requires
            old(self).0.wf(),
        ensures
            final(self).0.wf(),
            old(self).0.spec_type_of() != NodeType::Element ==> final(self).0 == old(self).0,
            old(self).0.spec_type_of() == NodeType::Element ==> (final(self).0.named_id matches Some(s) && s@ == named_id@),
            old(self).0.spec_type_of() == NodeType::Element ==> (final(self).0.data matches NodeData::Element(e)
                && e.attributes.value_of("id"@) == Some(named_id@)),
    {
        self.0.set_named_id(named_id)
    }

    pub fn has_named_id(&self) -> (r: bool)
        ensures
            r == (self.0.spec_type_of() == NodeType::Element && self.0.named_id is Some),
    {
        self.0.has_named_id()
    }

    pub fn is_special(&self) -> (r: bool)
        ensures
            r == ((in_namespace(self.0.namespace, HTML_NAMESPACE) && listed_name(special_html_names(), self.0.name@))
                || (in_namespace(self.0.namespace, MATHML_NAMESPACE) && listed_name(special_mathml_names(), self.0.name@))
                || (in_namespace(self.0.namespace, SVG_NAMESPACE) && listed_name(special_svg_names(), self.0.name@))),
    {
        self.0.is_special()
    }

    pub fn data(&self) -> (r: &NodeData)
        ensures
            *r == self.0.data,
    {
        &self.0.data
    }

    /// The node's data, to change in place.
    pub fn data_mut(&mut self) -> (r: &mut NodeData)
        ensures
            *r == old(self).0.data,
            final(self).0.data == *final(r),
            final(self).0.id == old(self).0.id,
            final(self).0.named_id == old(self).0.named_id,
            final(self).0.parent == old(self).0.parent,
            final(self).0.children == old(self).0.children,
            final(self).0.name == old(self).0.name,
            final(self).0.namespace == old(self).0.namespace,
    {
        &mut self.0.data
    }

    pub fn id(&self) -> (r: NodeId)
        ensures
            r == self.0.id,
    {
        self.0.id
    }

    pub fn set_id(&mut self, node_id: NodeId)
        ensures
            final(self).0 == (Inner { id: node_id, ..old(self).0 }),
    {
        self.0.id = node_id
    }

    pub fn parent(&self) -> (r: Option<NodeId>)
        ensures
            r == self.0.parent,
    {
        self.0.parent
    }

    pub fn set_parent(&mut self, parent_id: Option<NodeId>)
        ensures
            final(self).0 == (Inner { parent: parent_id, ..old(self).0 }),
    {
        self.0.parent = parent_id
    }

    pub fn children(&self) -> (r: &Vec<NodeId>)
        ensures
            *r == self.0.children,
    {
        &self.0.children
    }

    /// The node's children, to change in place.
    pub fn children_mut(&mut self) -> (r: &mut Vec<NodeId>)
        ensures
            *r == old(self).0.children,
            final(self).0 == (Inner { children: *final(r), ..old(self).0 }),
    {
        &mut self.0.children
    }

    pub fn push_child(&mut self, child_id: NodeId)
        ensures
            final(self).0.children@ == old(self).0.children@.push(child_id),
            final(self).0.id == old(self).0.id,
            final(self).0.parent == old(self).0.parent,
            final(self).0.name == old(self).0.name,
            final(self).0.namespace == old(self).0.namespace,
            final(self).0.named_id == old(self).0.named_id,
            final(self).0.data == old(self).0.data,
    {
        self.0.children.push(child_id)
    }

    pub fn name(&self) -> (r: &String)
        ensures
            *r == self.0.name,
    {
        &self.0.name
    }

    pub fn namespace(&self) -> (r: &Option<String>)
        ensures
            *r == self.0.namespace,
    {
        &self.0.namespace
    }

    pub fn push(&mut self, node_id: NodeId)
        ensures
            final(self).0.children@ == old(self).0.children@.push(node_id),
            final(self).0.id == old(self).0.id,
            final(self).0.parent == old(self).0.parent,
            final(self).0.name == old(self).0.name,
            final(self).0.namespace == old(self).0.namespace,
            final(self).0.named_id == old(self).0.named_id,
            final(self).0.data == old(self).0.data,
    {
        self.0.children.push(node_id)
    }

    pub fn matches_tag_and_attrs(&self, other: &Self) -> (r: bool)
        requires
            self.0.wf(),
            other.0.wf(),
        ensures
            r == (self.0.name@ == other.0.name@ && same_text_option(self.0.namespace, other.0.namespace)
                && same_data(self.0.data, other.0.data)),
    {
        self.0.matches_tag_and_attrs(&other.0)
    }
}

} // verus!
