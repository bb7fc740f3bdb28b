//! Extraction of element content from HTML text.  The HTML parser and the
//! CSS selector engine are outside collaborators reached through trusted
//! wrappers; the extraction modes, text assembly and filtering around them
//! are verified.

use vstd::prelude::*;
use kuchikiki::traits::NodeIterator;
use kuchikiki::traits::TendrilSink;
use crate::chars::chars_eq;
use crate::chars::chars_to_string;
use crate::chars::spec_trim;
use crate::chars::str_chars;
use crate::chars::sub_chars;
use crate::chars::trim_chars;
use crate::js_decode::ExtractError;
use crate::jsonio::json_text;
use crate::jsonio::json_tree;
use crate::jsonio::value_to_string;
use crate::jsonio::parse_json;
use crate::repair::escape_json_control_chars;
use crate::repair::spec_repair;

verus! {

#[verifier::external_type_specification]
#[verifier::external_body]
pub struct ExNodeRef(kuchikiki::NodeRef);

/// Relies on `kuchikiki::parse_html` (and its `TendrilSink::one`): parses
/// HTML text into a document node.
#[verifier::external_body]
fn parse_html_doc(html: &str) -> (r: kuchikiki::NodeRef) {
    kuchikiki::parse_html().one(html)
}

/// Relies on `NodeRef::select`: the inclusive descendant elements matching
/// the CSS selector, in tree order; `None` when the selector cannot be
/// parsed.
#[verifier::external_body]
fn node_select(node: &kuchikiki::NodeRef, selector: &str) -> (r: Option<Vec<kuchikiki::NodeRef>>) {
    match node.select(selector) {
        Ok(sel) => Some(sel.map(|n| n.as_node().clone()).collect()),
        Err(()) => None,
    }
}

/// Relies on `NodeRef`'s `ToString` (kuchikiki's HTML serializer): the
/// node's HTML text.
#[verifier::external_body]
fn node_html(node: &kuchikiki::NodeRef) -> (r: String) {
    node.to_string()
}

/// Relies on kuchikiki's `inclusive_descendants`/`text_nodes` iterator:
/// the text of each descendant text node of the node, in tree order.
#[verifier::external_body]
fn node_text_chunks(node: &kuchikiki::NodeRef) -> (r: Vec<String>) {
    node.inclusive_descendants().text_nodes().map(|t| t.borrow().clone()).collect()
}

/// Relies on `Node::as_element` and `Attributes::get`: the value of the
/// attribute on an element node, or `None` on a non-element node, an
/// absent attribute, or attributes that cannot be borrowed.
#[verifier::external_body]
fn node_attr(node: &kuchikiki::NodeRef, name: &str) -> (r: Option<String>) {
    match node.as_element() {
        Some(el) => match el.attributes.try_borrow() {
            Ok(attrs) => attrs.get(name).map(|s| s.to_string()),
            Err(_) => None,
        },
        None => None,
    }
}

/// The compact JSON object text of the given key/value pairs.
pub uninterp spec fn json_of_pairs(pairs: Seq<(String, String)>) -> Seq<char>;

/// Relies on `serde_json::Map`'s `FromIterator` and `serde_json::to_string`:
/// the compact JSON object text of the pairs (a later duplicate of a key
/// wins); serializing a string-keyed map cannot fail.  `json_of_pairs`
/// names the result.
#[verifier::external_body]
fn json_object_string(pairs: &Vec<(String, String)>) -> (r: String)
    ensures
        r@ == json_of_pairs(pairs@),
{
    let obj: serde_json::Map<String, serde_json::Value> = pairs.iter().map(
        |p: &(String, String)| (p.0.clone(), serde_json::Value::String(p.1.clone())),
    ).collect();
    serde_json::to_string(&obj).expect("serializing a string-keyed map cannot fail")
}

/// How the content of a matched element is extracted.
#[derive(Debug, Clone)]
pub enum ExtractMode {
    /// Return the full HTML of the element.
    Html,
    /// Return its text content only.
    Text,
    /// Return the value of one attribute.
    Attribute(String),
    /// Return several attributes as a JSON object.
    MultiAttribute(Vec<String>),
}

/// The characters of the marker `@text`.
pub open spec fn at_text_marker() -> Seq<char> {
    seq!['@', 't', 'e', 'x', 't']
}

/// The characters of the word `text`.
pub open spec fn text_marker() -> Seq<char> {
    seq!['t', 'e', 'x', 't']
}

/// What `from_attr` returns for a given attribute argument.
pub open spec fn from_attr_post(attr: Option<Seq<char>>, r: ExtractMode) -> bool {
    match attr {
        None => r is Html,
        Some(s) => if s.len() == 0 {
            r is Html
        } else if s == at_text_marker() || s == text_marker() {
            r is Text
        } else if s[0] == '@' {
            r is Attribute && r->Attribute_0@ == s.skip(1)
        } else {
            r is Attribute && r->Attribute_0@ == s
        },
    }
}

/// The normalized form of one attribute name in a multi-attribute list:
/// `text` and `@text` become the `@text` marker, a leading `@` is
/// stripped, and anything else stands unchanged.
pub open spec fn normalize_attr(s: Seq<char>) -> Seq<char> {
    if s == at_text_marker() || s == text_marker() {
        at_text_marker()
    } else if s.len() > 0 && s[0] == '@' {
        s.skip(1)
    } else {
        s
    }
}

impl ExtractMode {
    /// Parse an extraction mode from an optional attribute string: nothing
    /// or an empty string asks for HTML, `@text` or `text` for text, `@x`
    /// or `x` for the attribute `x`.
    pub fn from_attr(attr: Option<&str>) -> (r: Self)
        ensures
            from_attr_post(
                match attr {
                    Some(s) => Some(s@),
                    None => None,
                },
                r,
            ),
    {
        match attr {
            None => ExtractMode::Html,
            Some(s) => {
                let v = str_chars(s);
                if v.len() == 0 {
                    return ExtractMode::Html;
                }
                let at: Vec<char> = vec!['@', 't', 'e', 'x', 't'];
                let tx: Vec<char> = vec!['t', 'e', 'x', 't'];
                proof {
                    assert(at@ =~= at_text_marker());
                    assert(tx@ =~= text_marker());
                }
                if chars_eq(&v, &at) || chars_eq(&v, &tx) {
                    return ExtractMode::Text;
                }
                if v[0] == '@' {
                    let rest = sub_chars(&v, 1, v.len());
                    proof {
                        assert(rest@ =~= v@.skip(1));
                    }
                    return ExtractMode::Attribute(chars_to_string(&rest));
                }
                ExtractMode::Attribute(chars_to_string(&v))
            },
        }
    }

    /// Parse an extraction mode from a list of attribute names: an empty
    /// list asks for HTML, a single name is read as `from_attr` reads it,
    /// and several names become a multi-attribute mode with each name
    /// normalized.
    pub fn from_attr_list(attrs: &[String]) -> (r: Self)
        ensures
            attrs@.len() == 0 ==> r is Html,
            attrs@.len() == 1 ==> from_attr_post(Some(attrs@[0]@), r),
            attrs@.len() > 1 ==> r is MultiAttribute && r->MultiAttribute_0@.len() == attrs@.len()
                && (forall|i: int|
                0 <= i < attrs@.len() ==> r->MultiAttribute_0@[i]@ == normalize_attr(attrs@[i]@)),
    {
        let n = attrs.len();
        if n == 0 {
            return ExtractMode::Html;
        }
        if n == 1 {
            return Self::from_attr(Some(attrs[0].as_str()));
        }
        let at: Vec<char> = vec!['@', 't', 'e', 'x', 't'];
        let tx: Vec<char> = vec!['t', 'e', 'x', 't'];
        proof {
            assert(at@ =~= at_text_marker());
            assert(tx@ =~= text_marker());
        }
        let mut normalized: Vec<String> = Vec::new();
        let mut i: usize = 0;
        while i < n
            invariant
                i <= n,
                n == attrs@.len(),
                normalized@.len() == i,
                at@ == at_text_marker(),
                tx@ == text_marker(),
                forall|k: int| 0 <= k < i ==> normalized@[k]@ == normalize_attr(attrs@[k]@),
            decreases n - i,
        {
            let v = str_chars(attrs[i].as_str());
            if chars_eq(&v, &at) || chars_eq(&v, &tx) {
                normalized.push(chars_to_string(&at));
            } else if v.len() > 0 {
                let c = v[0];
                if c == '@' {
                    let rest = sub_chars(&v, 1, v.len());
                    proof {
                        assert(rest@ =~= v@.skip(1));
                    }
                    normalized.push(chars_to_string(&rest));
                } else {
                    normalized.push(chars_to_string(&v));
                }
            } else {
                normalized.push(chars_to_string(&v));
            }
            i += 1;
        }
        ExtractMode::MultiAttribute(normalized)
    }
}

/// The text content assembled from the text chunks of a node: each chunk
/// in order; with `ignore_ws`, chunks of bare whitespace are dropped and a
/// newline follows each kept chunk.
pub open spec fn spec_serialize_text(chunks: Seq<Seq<char>>, ignore_ws: bool) -> Seq<char>
    decreases chunks.len(),
{
    if chunks.len() == 0 {
        Seq::empty()
    } else {
        let head = chunks[0];
        let rest = spec_serialize_text(chunks.drop_first(), ignore_ws);
        if ignore_ws && spec_trim(head).len() == 0 {
            rest
        } else if ignore_ws {
            head + seq!['\n'] + rest
        } else {
            head + rest
        }
    }
}

/// Assemble the text content of a node from its text chunks; see
/// `spec_serialize_text`.
pub fn serialize_text_chunks(chunks: &Vec<String>, ignore_ws: bool) -> (r: String)
    ensures
        r@ == spec_serialize_text(chunks.deep_view(), ignore_ws),
{
    let n = chunks.len();
    let mut out: Vec<char> = Vec::new();
    let mut i: usize = 0;
    let ghost all = chunks.deep_view();
    proof {
        assert(all.len() == n);
        assert(all.skip(0) =~= all);
        assert(out@ + spec_serialize_text(all, ignore_ws) =~= spec_serialize_text(all, ignore_ws));
    }
    while i < n
        invariant
            i <= n,
            n == chunks@.len(),
            all == chunks.deep_view(),
            spec_serialize_text(all, ignore_ws) == out@ + spec_serialize_text(
                all.skip(i as int),
                ignore_ws,
            ),
        decreases n - i,
    {
        let ghost tail = all.skip(i as int);
        let ghost out0 = out@;
        proof {
            assert(tail[0] == all[i as int]);
            assert(all[i as int] == chunks@[i as int]@);
            assert(tail.drop_first() =~= all.skip(i + 1 as int));
        }
        let cv = str_chars(chunks[i].as_str());
        let t = trim_chars(&cv);
        if ignore_ws && t.len() == 0 {
            proof {
                assert(spec_trim(tail[0]).len() == 0);
            }
        } else {
            let mut j: usize = 0;
            let m = cv.len();
            while j < m
                invariant
                    j <= m,
                    m == cv@.len(),
                    out@ == out0 + cv@.take(j as int),
                decreases m - j,
            {
                let c = cv[j];
                out.push(c);
                proof {
                    assert(out0 + cv@.take(j + 1 as int) =~= (out0 + cv@.take(j as int)).push(
                        cv@[j as int],
                    ));
                }
                j += 1;
            }
            proof {
                assert(cv@.take(m as int) =~= cv@);
            }
            if ignore_ws {
                out.push('\n');
                proof {
                    assert(out@ =~= out0 + (tail[0] + seq!['\n']));
                    assert((out0 + (tail[0] + seq!['\n'])) + spec_serialize_text(
                        all.skip(i + 1 as int),
                        ignore_ws,
                    ) =~= out0 + (tail[0] + seq!['\n'] + spec_serialize_text(
                        all.skip(i + 1 as int),
                        ignore_ws,
                    )));
                }
            } else {
                proof {
                    assert(out@ =~= out0 + tail[0]);
                    assert((out0 + tail[0]) + spec_serialize_text(all.skip(i + 1 as int), ignore_ws)
                        =~= out0 + (tail[0] + spec_serialize_text(
                        all.skip(i + 1 as int),
                        ignore_ws,
                    )));
                }
            }
        }
        i += 1;
    }
    proof {
        assert(all.skip(n as int) =~= Seq::<Seq<char>>::empty());
        assert(out@ + Seq::<char>::empty() =~= out@);
    }
    chars_to_string(&out)
}

/// The trimmed text content of one node.
fn node_trimmed_text(node: &kuchikiki::NodeRef) -> (r: String) {
    let chunks = node_text_chunks(node);
    let text = serialize_text_chunks(&chunks, false);
    let tv = str_chars(text.as_str());
    let t = trim_chars(&tv);
    chars_to_string(&t)
}

/// Extract the content of every element matching the CSS selector, in the
/// given mode, dropping empty results; fails when the selector cannot be
/// parsed.
pub fn extract_all_with_mode(html: &str, selector: &str, mode: &ExtractMode) -> (r: Result<
    Vec<String>,
    ExtractError,
>)
    ensures
        r is Ok ==> forall|i: int| 0 <= i < r->Ok_0@.len() ==> r->Ok_0@[i]@.len() > 0,
        r is Err ==> r->Err_0 == ExtractError::InvalidSelector,
{
    let document = parse_html_doc(html);
    let nodes = match node_select(&document, selector) {
        Some(nodes) => nodes,
        None => {
            return Err(ExtractError::InvalidSelector);
        },
    };
    let mut results: Vec<String> = Vec::new();
    let n = nodes.len();
    let mut i: usize = 0;
    while i < n
        invariant
            i <= n,
            n == nodes@.len(),
            forall|k: int| 0 <= k < results@.len() ==> results@[k]@.len() > 0,
        decreases n - i,
    {
        let content = extract_node_content(&nodes[i], mode);
        if !content.as_str().is_empty() {
            results.push(content);
        }
        i += 1;
    }
    Ok(results)
}

/// The content of one node in the given mode.
fn extract_node_content(node: &kuchikiki::NodeRef, mode: &ExtractMode) -> (r: String) {
    match mode {
        ExtractMode::Text => node_trimmed_text(node),
        ExtractMode::Html => node_html(node),
        ExtractMode::Attribute(attr) => {
            match node_attr(node, attr.as_str()) {
                Some(val) => val,
                None => String::new(),
            }
        },
        ExtractMode::MultiAttribute(attr_list) => {
            let at: Vec<char> = vec!['@', 't', 'e', 'x', 't'];
            let mut pairs: Vec<(String, String)> = Vec::new();
            let m = attr_list.len();
            let mut j: usize = 0;
            while j < m
                invariant
                    j <= m,
                    m == attr_list@.len(),
                decreases m - j,
            {
                let av = str_chars(attr_list[j].as_str());
                if chars_eq(&av, &at) {
                    let value = node_trimmed_text(node);
                    let key = String::from_str("text");
                    pairs.push((key, value));
                } else {
                    let value = match node_attr(node, attr_list[j].as_str()) {
                        Some(val) => val,
                        None => String::new(),
                    };
                    let key = attr_list[j].clone();
                    pairs.push((key, value));
                }
                j += 1;
            }
            json_object_string(&pairs)
        },
    }
}

/// Extract the text content of every element matching the CSS selector,
/// each returned separately with surrounding whitespace trimmed and empty
/// results dropped; fails when the selector cannot be parsed.
pub fn extract_all_text(html: &str, selector: &str) -> (r: Result<Vec<String>, ExtractError>)
    ensures
        r is Ok ==> forall|i: int| 0 <= i < r->Ok_0@.len() ==> r->Ok_0@[i]@.len() > 0,
        r is Err ==> r->Err_0 == ExtractError::InvalidSelector,
{
    let mode = ExtractMode::Text;
    extract_all_with_mode(html, selector, &mode)
}

/// Extract every element matching the CSS selector, as HTML or as text;
/// fails when the selector cannot be parsed.
pub fn extract_all_elements(html: &str, selector: &str, text_only: bool) -> (r: Result<
    Vec<String>,
    ExtractError,
>)
    ensures
        r is Ok ==> forall|i: int| 0 <= i < r->Ok_0@.len() ==> r->Ok_0@[i]@.len() > 0,
        r is Err ==> r->Err_0 == ExtractError::InvalidSelector,
{
    let mode = if text_only {
        ExtractMode::Text
    } else {
        ExtractMode::Html
    };
    extract_all_with_mode(html, selector, &mode)
}

/// Configuration of the HTML processing pipeline.
#[derive(Debug, Clone)]
pub struct HqConfig {
    /// The CSS selector naming the elements to process.
    pub selector: String,
    /// A base URL for rewriting relative links, if any.
    pub base: Option<String>,
    /// Whether to look for a base URL in the document itself.
    pub detect_base: bool,
    /// Whether to emit text content instead of HTML.
    pub text_only: bool,
    /// Whether to drop text chunks of bare whitespace.
    pub ignore_whitespace: bool,
    /// Whether to pretty-print the HTML output.
    pub pretty_print: bool,
    /// Selectors of nodes to remove before output.
    pub remove_nodes: Vec<String>,
    /// Attributes whose values are emitted instead of content.
    pub attributes: Vec<String>,
    /// Whether to compact near-valid JSON output.
    pub compact: bool,
}

impl Default for HqConfig {
    /// The default configuration: the `:root` selector, whole-document
    /// HTML output, and every option off.
    fn default() -> (r: Self)
        ensures
            r.selector@ == seq![':', 'r', 'o', 'o', 't'],
            r.base is None,
            !r.detect_base,
            !r.text_only,
            !r.ignore_whitespace,
            !r.pretty_print,
            !r.compact,
            r.remove_nodes@.len() == 0,
            r.attributes@.len() == 0,
    {
        proof {
            reveal_strlit(":root");
            assert(":root"@ =~= seq![':', 'r', 'o', 'o', 't']);
        }
        HqConfig {
            selector: String::from_str(":root"),
            base: None,
            detect_base: false,
            text_only: false,
            ignore_whitespace: false,
            pretty_print: false,
            remove_nodes: Vec::new(),
            attributes: Vec::new(),
            compact: false,
        }
    }
}

/// Compact near-valid JSON text: parse the trimmed text (repairing control
/// characters as a fallback) and reserialize it compactly; text that is not
/// JSON even after repair is returned unchanged.
pub fn compact_json_text(input: &str) -> (r: String)
    ensures
        ({
            let t = spec_trim(input@);
            match json_tree(t) {
                Some(v) => r@ == json_text(v),
                None => match json_tree(spec_repair(t)) {
                    Some(v) => r@ == json_text(v),
                    None => r@ == input@,
                },
            }
        }),
{
    let iv = str_chars(input);
    let tv = trim_chars(&iv);
    let trimmed = chars_to_string(&tv);
    match parse_json(trimmed.as_str()) {
        Some(v) => value_to_string(&v),
        None => {
            let fixed = escape_json_control_chars(trimmed.as_str());
            match parse_json(fixed.as_str()) {
                Some(v) => value_to_string(&v),
                None => input.to_owned(),
            }
        },
    }
}

} // verus!
