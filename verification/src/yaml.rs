//! The YAML documents that `yaml_rust2` loads, as a tree of the library's own (`Node`), and the
//! few reads the checks make of it. A `Yaml` node is taken apart variant by variant through one
//! trusted item, stated over `yaml_value`, what the node holds.

use vstd::prelude::*;
use yaml_rust2::Yaml;
use yaml_rust2::YamlLoader;

verus! {

/// What a `Yaml` node holds, variant for variant; a hash keeps its entries in insertion order.
pub enum YamlValue {
    Real(Seq<char>),
    Integer(int),
    Str(Seq<char>),
    Boolean(bool),
    Array(Seq<YamlValue>),
    Hash(Seq<(YamlValue, YamlValue)>),
    Alias(nat),
    Null,
    BadValue,
}

#[verifier::external_type_specification]
#[verifier::external_body]
pub struct ExYaml(Yaml);

/// What a `Yaml` node holds.
pub uninterp spec fn yaml_value(y: Yaml) -> YamlValue;

/// What `YamlLoader::load_from_str` gives for a text: its documents, or the message of its error.
pub uninterp spec fn yaml_documents(text: Seq<char>) -> Result<Seq<YamlValue>, Seq<char>>;

pub open spec fn values_of(docs: Seq<Yaml>) -> Seq<YamlValue> {
    docs.map_values(|d: Yaml| yaml_value(d))
}

/// The value of `key` among the entries of a hash: what `LinkedHashMap::get` finds, the keys of
/// a hash being distinct.
pub open spec fn lookup(entries: Seq<(YamlValue, YamlValue)>, key: Seq<char>) -> YamlValue
    decreases entries.len(),
{
    if entries.len() == 0 {
        YamlValue::BadValue
    } else if entries[0].0 == YamlValue::Str(key) {
        entries[0].1
    } else {
        lookup(entries.drop_first(), key)
    }
}

/// `node[key]`: the value of `key` in a hash, `BadValue` for anything else.
pub open spec fn at(v: YamlValue, key: Seq<char>) -> YamlValue {
    match v {
        YamlValue::Hash(entries) => lookup(entries, key),
        _ => YamlValue::BadValue,
    }
}

/// `node.as_str()`.
pub open spec fn str_of(v: YamlValue) -> Option<Seq<char>> {
    match v {
        YamlValue::Str(s) => Some(s),
        _ => None,
    }
}

/// A `Yaml` node taken apart: its variant, with what it holds.
enum YamlParts<'a> {
    Real(&'a str),
    Integer(i64),
    Str(&'a str),
    Boolean(bool),
    Array(&'a Vec<Yaml>),
    Hash(Vec<(&'a Yaml, &'a Yaml)>),
    Alias(usize),
    Null,
    BadValue,
}

/// `YamlLoader::load_from_str`; its error is turned into its message (`ScanError`'s `Display`).
/// Claimed: the documents, or the message, are what `yaml_documents` names for the text.
#[verifier::external_body]
pub(crate) fn load_documents(text: &str) -> (r: Result<Vec<Yaml>, String>)
    ensures
        match r {
            Ok(docs) => yaml_documents(text@) == Ok::<Seq<YamlValue>, Seq<char>>(values_of(docs@)),
            Err(e) => yaml_documents(text@) == Err::<Seq<YamlValue>, Seq<char>>(e@),
        },
{
    YamlLoader::load_from_str(text).map_err(|problem| problem.to_string())
}

/// The variants of `yaml_rust2::Yaml` told apart, a hash's entries taken in insertion order
/// (`LinkedHashMap::iter`). Claimed: the variant and the contents are those `yaml_value` names.
#[verifier::external_body]
fn yaml_parts<'a>(y: &'a Yaml) -> (r: YamlParts<'a>)
    ensures
        match yaml_value(*y) {
            YamlValue::Real(s) => r matches YamlParts::Real(t) && t@ == s,
            YamlValue::Integer(i) => r matches YamlParts::Integer(j) && j as int == i,
            YamlValue::Str(s) => r matches YamlParts::Str(t) && t@ == s,
            YamlValue::Boolean(b) => r matches YamlParts::Boolean(c) && c == b,
            YamlValue::Array(items) => r matches YamlParts::Array(v) && values_of(v@) == items,
            YamlValue::Hash(entries) => r matches YamlParts::Hash(v) && v@.len() == entries.len()
                && forall|i: int|
                0 <= i < entries.len() ==> yaml_value(*v@[i].0) == entries[i].0 && yaml_value(
                    *v@[i].1,
                ) == entries[i].1,
            YamlValue::Alias(a) => r matches YamlParts::Alias(b) && b as nat == a,
            YamlValue::Null => r is Null,
            YamlValue::BadValue => r is BadValue,
        },
{
    match y {
        Yaml::Real(s) => YamlParts::Real(s),
        Yaml::Integer(i) => YamlParts::Integer(*i),
        Yaml::String(s) => YamlParts::Str(s),
        Yaml::Boolean(b) => YamlParts::Boolean(*b),
        Yaml::Array(items) => YamlParts::Array(items),
        Yaml::Hash(h) => YamlParts::Hash(h.iter().collect()),
        Yaml::Alias(a) => YamlParts::Alias(*a),
        Yaml::Null => YamlParts::Null,
        Yaml::BadValue => YamlParts::BadValue,
    }
}

/// A YAML node as the library holds it, variant for variant with `yaml_rust2::Yaml`; a hash
/// keeps its entries in insertion order, and a key is found at its first entry.
#[derive(Debug, PartialEq)]
pub enum Node {
    Real(String),
    Integer(i64),
    Str(String),
    Boolean(bool),
    Array(Vec<Node>),
    Hash(Vec<(Node, Node)>),
    Alias(usize),
    Null,
    BadValue,
}

pub open spec fn nodes_value(v: Seq<Node>) -> Seq<YamlValue>
    decreases v,
{
    Seq::new(
        v.len(),
        |i: int|
            if 0 <= i < v.len() {
                node_value(v[i])
            } else {
                YamlValue::Null
            },
    )
}

pub open spec fn entries_value(es: Seq<(Node, Node)>) -> Seq<(YamlValue, YamlValue)>
    decreases es,
{
    Seq::new(
        es.len(),
        |i: int|
            if 0 <= i < es.len() {
                (node_value(es[i].0), node_value(es[i].1))
            } else {
                (YamlValue::Null, YamlValue::Null)
            },
    )
}

/// What a node holds.
pub open spec fn node_value(n: Node) -> YamlValue
    decreases n,
{
    match n {
        Node::Real(s) => YamlValue::Real(s@),
        Node::Integer(i) => YamlValue::Integer(i as int),
        Node::Str(s) => YamlValue::Str(s@),
        Node::Boolean(b) => YamlValue::Boolean(b),
        Node::Array(v) => YamlValue::Array(nodes_value(v@)),
        Node::Hash(es) => YamlValue::Hash(entries_value(es@)),
        Node::Alias(a) => YamlValue::Alias(a as nat),
        Node::Null => YamlValue::Null,
        Node::BadValue => YamlValue::BadValue,
    }
}

/// A `Yaml` node as a `Node` that holds the same.
pub(crate) fn to_node(y: &Yaml) -> (n: Node)
    ensures
        node_value(n) == yaml_value(*y),
    decreases yaml_value(*y),
{
    match yaml_parts(y) {
        YamlParts::Real(s) => Node::Real(s.to_owned()),
        YamlParts::Integer(i) => Node::Integer(i),
        YamlParts::Str(s) => Node::Str(s.to_owned()),
        YamlParts::Boolean(b) => Node::Boolean(b),
        YamlParts::Array(items) => {
            let ghost whole = yaml_value(*y);
            let ghost vs = values_of(items@);
            let mut out: Vec<Node> = Vec::new();
            let mut i: usize = 0;
            while i < items.len()
                invariant
                    whole == yaml_value(*y),
                    whole == YamlValue::Array(vs),
                    vs == values_of(items@),
                    vs.len() == items@.len(),
                    i <= items@.len(),
                    out@.len() == i,
                    forall|k: int| 0 <= k < i ==> node_value(#[trigger] out@[k]) == vs[k],
                decreases items.len() - i,
            {
                assert(vs[i as int] == yaml_value(items@[i as int]));
                assert(decreases_to!(whole => whole->Array_0));
                assert(decreases_to!(whole->Array_0 => whole->Array_0[i as int]));
                let child = to_node(&items[i]);
                out.push(child);
                i = i + 1;
            }
            assert(nodes_value(out@) =~= vs);
            Node::Array(out)
        },
        YamlParts::Hash(entries) => {
            let ghost whole = yaml_value(*y);
            let ghost es = match whole {
                YamlValue::Hash(es) => es,
                _ => seq![],
            };
            let mut out: Vec<(Node, Node)> = Vec::new();
            let mut i: usize = 0;
            while i < entries.len()
                invariant
                    whole == yaml_value(*y),
                    whole == YamlValue::Hash(es),
                    entries@.len() == es.len(),
                    forall|k: int|
                        0 <= k < es.len() ==> yaml_value(*entries@[k].0) == es[k].0 && yaml_value(
                            *entries@[k].1,
                        ) == es[k].1,
                    i <= entries@.len(),
                    out@.len() == i,
                    forall|k: int|
                        0 <= k < i ==> node_value((#[trigger] out@[k]).0) == es[k].0 && node_value(
                            out@[k].1,
                        ) == es[k].1,
                decreases entries.len() - i,
            {
                let (key, value) = entries[i];
                assert(decreases_to!(whole => whole->Hash_0));
                assert(decreases_to!(whole->Hash_0 => whole->Hash_0[i as int]));
                assert(decreases_to!(whole->Hash_0[i as int] => whole->Hash_0[i as int].0));
                assert(decreases_to!(whole->Hash_0[i as int] => whole->Hash_0[i as int].1));
                let k = to_node(key);
                let v = to_node(value);
                out.push((k, v));
                i = i + 1;
            }
            assert(entries_value(out@) =~= es);
            Node::Hash(out)
        },
        YamlParts::Alias(a) => Node::Alias(a),
        YamlParts::Null => Node::Null,
        YamlParts::BadValue => Node::BadValue,
    }
}

/// What an optional node holds: `BadValue` where there is none, as `yaml_rust2` answers an index
/// that finds nothing.
pub open spec fn opt_value(n: Option<&Node>) -> YamlValue {
    match n {
        Some(m) => node_value(*m),
        None => YamlValue::BadValue,
    }
}

/// `node[key]` (`Index<&str>` of `yaml_rust2::Yaml`): the value of `key` in a hash; `None` where
/// the index gives `BadValue`.
pub fn node_at<'a>(n: Option<&'a Node>, key: &str) -> (r: Option<&'a Node>)
    ensures
        opt_value(r) == at(opt_value(n), key@),
{
    match n {
        Some(Node::Hash(entries)) => {
            let ghost es = entries_value(entries@);
            let mut i: usize = 0;
            assert(es.skip(0) =~= es);
            assert(opt_value(n) == YamlValue::Hash(es));
            while i < entries.len()
                invariant
                    opt_value(n) == YamlValue::Hash(es),
                    es == entries_value(entries@),
                    es.len() == entries@.len(),
                    i <= entries@.len(),
                    lookup(es, key@) == lookup(es.skip(i as int), key@),
                decreases entries.len() - i,
            {
                proof {
                    assert(es.skip(i as int)[0] == es[i as int]);
                    assert(es.skip(i as int).drop_first() =~= es.skip(i + 1));
                }
                assert(es[i as int] == (node_value(entries@[i as int].0), node_value(
                    entries@[i as int].1,
                )));
                match &entries[i].0 {
                    Node::Str(s) => {
                        if crate::text::str_equal(s.as_str(), key) {
                            assert(es.skip(i as int)[0].0 == YamlValue::Str(key@));
                            assert(lookup(es.skip(i as int), key@) == es[i as int].1);
                            return Some(&entries[i].1);
                        }
                    },
                    _ => {},
                }
                i = i + 1;
            }
            assert(es.skip(i as int) =~= Seq::<(YamlValue, YamlValue)>::empty());
            None
        },
        _ => None,
    }
}

/// `node.as_str()`.
pub fn node_str<'a>(n: Option<&'a Node>) -> (r: Option<&'a str>)
    ensures
        match r {
            Some(t) => str_of(opt_value(n)) == Some(t@),
            None => str_of(opt_value(n)) is None,
        },
{
    match n {
        Some(Node::Str(s)) => Some(s.as_str()),
        _ => None,
    }
}

/// `node.as_vec()`.
pub fn node_items<'a>(n: Option<&'a Node>) -> (r: Option<&'a Vec<Node>>)
    ensures
        match opt_value(n) {
            YamlValue::Array(items) => r matches Some(v) && nodes_value(v@) == items,
            _ => r is None,
        },
{
    match n {
        Some(Node::Array(items)) => Some(items),
        _ => None,
    }
}

/// `node.as_hash()`, its entries in order.
pub fn node_entries<'a>(n: Option<&'a Node>) -> (r: Option<&'a Vec<(Node, Node)>>)
    ensures
        match opt_value(n) {
            YamlValue::Hash(entries) => r matches Some(v) && entries_value(v@) == entries,
            _ => r is None,
        },
{
    match n {
        Some(Node::Hash(entries)) => Some(entries),
        _ => None,
    }
}

/// `node.is_badvalue()`.
pub fn node_is_bad(n: Option<&Node>) -> (r: bool)
    ensures
        r == (opt_value(n) is BadValue),
{
    match n {
        Some(Node::BadValue) => true,
        None => true,
        _ => false,
    }
}

} // verus!
