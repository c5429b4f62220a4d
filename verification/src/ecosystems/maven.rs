//! Maven Central: where an artifact's metadata is and which versions it lists.
use vstd::prelude::*;
use vstd::string::StringExecFns;
use crate::text::{chars_of, string_of, lemma_filter_push};

verus! {

/// A character of an artifact coordinate as it appears in the repository path:
/// `.` and `:` become `/`.
pub open spec fn path_char(c: char) -> char {
    if c == '.' || c == ':' {
        '/'
    } else {
        c
    }
}

/// The repository directory of artifact `group:artifact`: every `.` and `:` becomes `/`.
pub open spec fn metadata_path(name: Seq<char>) -> Seq<char> {
    name.map_values(|c: char| path_char(c))
}

/// The address of the metadata document of artifact `name` (`group:artifact`).
pub open spec fn metadata_url_spec(name: Seq<char>) -> Seq<char> {
    "https://repo1.maven.org/maven2/"@ + metadata_path(name) + "/maven-metadata.xml"@
}

/// The address of the metadata document of artifact `name` (`group:artifact`).
pub fn metadata_url(name: &str) -> (r: String)
    ensures
        r@ == metadata_url_spec(name@),
{
    let c = chars_of(name);
    let mut p: Vec<char> = Vec::new();
    for i in 0..c.len()
        invariant
            c@ == name@,
            p@ == metadata_path(c@.take(i as int)),
    {
        let x = if c[i] == '.' || c[i] == ':' {
            '/'
        } else {
            c[i]
        };
        p.push(x);
        assert(p@ =~= metadata_path(c@.take(i + 1)));
    }
    assert(c@.take(c@.len() as int) =~= c@);
    let mut u = String::from_str("https://repo1.maven.org/maven2/");
    let path = string_of(&p);
    u.append(path.as_str());
    u.append("/maven-metadata.xml");
    u
}

/// One node of an XML document: whether it is an element, its local tag name (empty for
/// other nodes) and its text (`roxmltree::Node::text`: an element's first child text).
pub struct XmlNode {
    pub is_element: bool,
    pub local_name: String,
    pub text: Option<String>,
}

/// What an XML node holds, as plain values.
pub struct XmlNodeView {
    pub is_element: bool,
    pub local_name: Seq<char>,
    pub text: Option<Seq<char>>,
}

impl View for XmlNode {
    type V = XmlNodeView;

    open spec fn view(&self) -> XmlNodeView {
        XmlNodeView {
            is_element: self.is_element,
            local_name: self.local_name@,
            text: match self.text {
                Some(t) => Some(t@),
                None => None,
            },
        }
    }
}

/// What a sequence of nodes holds.
pub open spec fn nodes_view(v: Seq<XmlNode>) -> Seq<XmlNodeView> {
    v.map_values(|n: XmlNode| n@)
}

/// What `roxmltree` makes of a document: all its nodes in document order, root first,
/// or the text of its parse error.
pub uninterp spec fn roxmltree_descendants(xml: Seq<char>) -> Result<Seq<XmlNodeView>, Seq<char>>;

/// Calls `roxmltree::Document::parse` and walks `Document::descendants`, keeping of each
/// node `Node::is_element`, the local part of `Node::tag_name` and `Node::text`.
///
/// Claimed: the outcome depends on the document text alone (named `roxmltree_descendants`).
/// The XML grammar and the error texts are left unsaid.
#[verifier::external_body]
fn xml_descendants(xml: &str) -> (r: Result<Vec<XmlNode>, String>)
    ensures
        match r {
            Ok(v) => roxmltree_descendants(xml@) == Ok::<Seq<XmlNodeView>, Seq<char>>(nodes_view(v@)),
            Err(e) => roxmltree_descendants(xml@) == Err::<Seq<XmlNodeView>, Seq<char>>(e@),
        },
{
    match roxmltree::Document::parse(xml) {
        Err(e) => Err(e.to_string()),
        Ok(doc) => {
            let mut nodes = Vec::new();
            for n in doc.descendants() {
                let text = n.text().map(String::from);
                nodes.push(XmlNode { is_element: n.is_element(), local_name: n.tag_name().name().to_string(), text });
            }
            Ok(nodes)
        },
    }
}

/// The text of a `version` element (`Node::has_tag_name("version")`), if it has one.
pub open spec fn version_text(n: XmlNodeView) -> Option<Seq<char>> {
    if n.is_element && n.local_name == "version"@ {
        n.text
    } else {
        None
    }
}

/// `version_text`, as a value.
pub open spec fn version_text_fn() -> spec_fn(XmlNodeView) -> Option<Seq<char>> {
    |n: XmlNodeView| version_text(n)
}

/// The texts of the `version` elements among `nodes`, in order.
pub fn versions_from_nodes(nodes: &Vec<XmlNode>) -> (r: Vec<String>)
    ensures
        r.deep_view() == nodes_view(nodes@).filter_map(version_text_fn()),
{
    let ghost ns = nodes_view(nodes@);
    let wanted = String::from_str("version");
    let mut out: Vec<String> = Vec::new();
    assert(ns.take(0).filter_map(version_text_fn()) =~= Seq::<Seq<char>>::empty());
    for i in 0..nodes.len()
        invariant
            ns == nodes_view(nodes@),
            wanted@ == "version"@,
            out.deep_view() == ns.take(i as int).filter_map(version_text_fn()),
    {
        assert(ns.take(i + 1).drop_last() =~= ns.take(i as int));
        assert(ns[i as int] == nodes@[i as int]@);
        let n = &nodes[i];
        if n.is_element && n.local_name == wanted {
            match &n.text {
                Some(t) => {
                    let ghost before = out.deep_view();
                    out.push(t.clone());
                    assert(out.deep_view() =~= before + seq![t@]);
                },
                None => {},
            }
        }
    }
    assert(ns.take(ns.len() as int) =~= ns);
    out
}

/// The versions a metadata document lists (`roxmltree` nodes that are `version`
/// elements, their texts in document order).
pub open spec fn maven_versions(xml: Seq<char>) -> Result<Seq<Seq<char>>, Seq<char>> {
    match roxmltree_descendants(xml) {
        Ok(ns) => Ok(ns.filter_map(version_text_fn())),
        Err(e) => Err(e),
    }
}

/// Whether a node is an element named `version` that has text.
pub open spec fn is_version_element(n: XmlNodeView) -> bool {
    n.is_element && n.local_name == "version"@ && n.text is Some
}

/// `is_version_element`, as a predicate.
pub open spec fn version_element_pred() -> spec_fn(XmlNodeView) -> bool {
    |n: XmlNodeView| is_version_element(n)
}

/// The text of a node (meaningful where it has one).
pub open spec fn node_text_fn() -> spec_fn(XmlNodeView) -> Seq<char> {
    |n: XmlNodeView|
        match n.text {
            Some(t) => t,
            None => Seq::<char>::empty(),
        }
}

/// Every element named `version` that has text contributes that text unchanged, one entry
/// per such node, in document order: the texts taken from a sequence of nodes are the
/// texts of its `version` elements with text, and nothing else.
pub proof fn every_version_element_listed(nodes: Seq<XmlNodeView>)
    ensures
        nodes.filter_map(version_text_fn()) == nodes.filter(version_element_pred()).map_values(
            node_text_fn(),
        ),
    decreases nodes.len(),
{
    if nodes.len() == 0 {
        assert(nodes.filter(version_element_pred()) =~= Seq::<XmlNodeView>::empty()) by {
            reveal(Seq::filter);
        }
        assert(nodes.filter(version_element_pred()).map_values(node_text_fn()) =~= Seq::<
            Seq<char>,
        >::empty());
    } else {
        let rest = nodes.drop_last();
        let n = nodes.last();
        every_version_element_listed(rest);
        assert(rest.push(n) =~= nodes);
        lemma_filter_push(rest, n, version_element_pred());
        let f = rest.filter(version_element_pred());
        if is_version_element(n) {
            assert(f.push(n).map_values(node_text_fn()) =~= f.map_values(node_text_fn()) + seq![
                node_text_fn()(n),
            ]);
        }
    }
}

/// A metadata document that `roxmltree` reads lists the text of each of its `version`
/// elements that has text, in document order, and nothing else.
pub proof fn metadata_lists_every_version_element(xml: Seq<char>, ns: Seq<XmlNodeView>)
    requires
        roxmltree_descendants(xml) == Ok::<Seq<XmlNodeView>, Seq<char>>(ns),
    ensures
        maven_versions(xml) == Ok::<Seq<Seq<char>>, Seq<char>>(
            ns.filter(version_element_pred()).map_values(node_text_fn()),
        ),
{
    every_version_element_listed(ns);
}

/// The versions a metadata document lists, or the parse error's text.
pub fn parse_versions(xml: &str) -> (r: Result<Vec<String>, String>)
    ensures
        match r {
            Ok(v) => maven_versions(xml@) == Ok::<Seq<Seq<char>>, Seq<char>>(v.deep_view()),
            Err(e) => maven_versions(xml@) == Err::<Seq<Seq<char>>, Seq<char>>(e@),
        },
{
    match xml_descendants(xml) {
        Ok(nodes) => Ok(versions_from_nodes(&nodes)),
        Err(e) => Err(e),
    }
}

} // verus!
