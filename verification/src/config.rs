//! Configuration documents: a tree of values read by dotted paths, with
//! coercion of what a path resolves to into strings, booleans and integers.

use vstd::prelude::*;
use vstd::pervasive::unreached;
use crate::search::{first_at, lemma_first_at, lemma_first_at_is};
use crate::number::{truncate, truncated};
use crate::text::{
    decimal, decimal_text, first_dot, has_dot, head, is_dot, lemma_decimal_round_trip, lemma_digits, parse_bool, parse_decimal, parse_i64, rest, split_path, truth,
};

verus! {

/// The condition on an entry of a mapping of standing under `key`.
pub open spec fn under(key: Seq<char>) -> spec_fn((Seq<char>, Tree)) -> bool {
    |e: (Seq<char>, Tree)| e.0 == key
}

/// What a document holds, as a mathematical tree: the view of a [`Node`].
pub enum Tree {
    Null,
    Bool(bool),
    Integer(i64),
    /// A number with a fraction or beyond the integers' range: the bits of
    /// its binary64 form, and its decimal text.
    Float { bits: u64, text: Seq<char> },
    Text(Seq<char>),
    /// A date or time of a document, by its text.
    Datetime(Seq<char>),
    List(Seq<Tree>),
    /// A mapping, as its entries in the document's order.
    Table(Seq<(Seq<char>, Tree)>),
}

impl Tree {
    /// The entries of a mapping; nothing for any other value.
    pub open spec fn entries(self) -> Seq<(Seq<char>, Tree)> {
        match self {
            Tree::Table(entries) => entries,
            _ => Seq::empty(),
        }
    }

    /// The position of the first entry under `key`, or the number of entries
    /// where there is none.
    pub open spec fn position(self, key: Seq<char>) -> int {
        first_at(self.entries(), under(key))
    }

    /// One lookup in a mapping: the value of the first entry under `key`.
    /// Nothing is found in a value that is no mapping.
    pub open spec fn member(self, key: Seq<char>) -> Option<Tree> {
        let i = self.position(key);
        if 0 <= i < self.entries().len() {
            Some(self.entries()[i].1)
        } else {
            None
        }
    }

    /// The value at a dotted path: one lookup per segment, from left to
    /// right, ended by the first that fails. The empty path leads nowhere.
    pub open spec fn resolve(self, path: Seq<char>) -> Option<Tree>
        decreases path.len(),
    {
        if path.len() == 0 {
            None
        } else if !has_dot(path) {
            self.member(path)
        } else {
            match self.member(head(path)) {
                None => None,
                Some(child) => child.resolve(rest(path)),
            }
        }
    }

    /// The names of a mapping's entries, in order; none for any other value.
    pub open spec fn keys(self) -> Seq<Seq<char>> {
        Seq::new(self.entries().len(), |i: int| self.entries()[i].0)
    }

    /// The text of a scalar before the rule on empty text: a string as it
    /// is, an integer in decimal, a boolean as `true` or `false`, and a
    /// number or date by the text it carries.
    pub open spec fn scalar_text(self) -> Option<Seq<char>> {
        match self {
            Tree::Text(s) => Some(s),
            Tree::Integer(n) => Some(decimal(n as int)),
            Tree::Float { bits, text } => Some(text),
            Tree::Bool(b) => Some(
                if b {
                    "true"@
                } else {
                    "false"@
                },
            ),
            Tree::Datetime(s) => Some(s),
            _ => None,
        }
    }

    /// The value as a string: the text of a scalar, unless that is empty.
    /// Empty text counts as no value.
    pub open spec fn as_str(self) -> Option<Seq<char>> {
        match self.scalar_text() {
            Some(s) => if s.len() == 0 {
                None
            } else {
                Some(s)
            },
            None => None,
        }
    }

    /// The value as a boolean: a boolean itself, or what a string says as a
    /// truth word.
    pub open spec fn as_bool(self) -> Option<bool> {
        match self {
            Tree::Text(s) => truth(s),
            Tree::Bool(b) => Some(b),
            _ => None,
        }
    }

    /// The value as an integer: an integer itself, a number with a fraction
    /// truncated toward zero, or what a string says in decimal.
    pub open spec fn as_i64(self) -> Option<i64> {
        match self {
            Tree::Text(s) => parse_decimal(s),
            Tree::Integer(n) => Some(n),
            Tree::Float { bits, text } => Some(truncated(bits)),
            _ => None,
        }
    }
}

/// A value of a configuration document.
#[derive(Debug)]
pub enum Node {
    Null,
    Bool(bool),
    Integer(i64),
    /// A number with a fraction or beyond the integers' range: the bits of
    /// its binary64 form, and its decimal text.
    Float { bits: u64, text: String },
    Text(String),
    /// A date or time, by its text.
    Datetime(String),
    List(Vec<Node>),
    /// A mapping, as its entries in the document's order.
    Table(Vec<(String, Node)>),
}

/// The views of the items of a list, in order.
pub open spec fn list_view(items: Vec<Node>) -> Seq<Tree>
    decreases items,
{
    Seq::new(
        items@.len(),
        |i: int|
            if 0 <= i < items@.len() {
                items@[i].tree()
            } else {
                Tree::Null
            },
    )
}

/// The views of the entries of a mapping, in order.
pub open spec fn table_view(entries: Vec<(String, Node)>) -> Seq<(Seq<char>, Tree)>
    decreases entries,
{
    Seq::new(
        entries@.len(),
        |i: int|
            if 0 <= i < entries@.len() {
                (entries@[i].0@, entries@[i].1.tree())
            } else {
                (Seq::empty(), Tree::Null)
            },
    )
}

impl View for Node {
    type V = Tree;

    open spec fn view(&self) -> Tree {
        self.tree()
    }
}

/// Whether `r` holds the text `t`, or both are nothing.
pub open spec fn text_is(r: Option<String>, t: Option<Seq<char>>) -> bool {
    match r {
        Some(s) => t == Some(s@),
        None => t is None,
    }
}

impl Node {
    /// The tree that this value stands for.
    pub open spec fn tree(self) -> Tree
        decreases self,
    {
        match self {
            Node::Null => Tree::Null,
            Node::Bool(b) => Tree::Bool(b),
            Node::Integer(n) => Tree::Integer(n),
            Node::Float { bits, text } => Tree::Float { bits, text: text@ },
            Node::Text(s) => Tree::Text(s@),
            Node::Datetime(s) => Tree::Datetime(s@),
            Node::List(items) => Tree::List(list_view(items)),
            Node::Table(entries) => Tree::Table(table_view(entries)),
        }
    }

    /// One lookup in a mapping: the value of the first entry under `key`.
    pub fn child(&self, key: &str) -> (r: Option<&Node>)
        ensures
            match r {
                Some(n) => self@.member(key@) == Some(n@),
                None => self@.member(key@) is None,
            },
    {
        match self {
            Node::Table(entries) => {
                let name = key.to_owned();
                let n: usize = entries.len();
                let mut i: usize = 0;
                while i < n && entries[i].0 != name
                    invariant
                        n == entries.len(),
                        name@ == key@,
                        i <= n,
                        self@.entries().len() == n,
                        forall|j: int| 0 <= j < n ==> self@.entries()[j].0 == (#[trigger] entries@[j]).0@,
                        forall|j: int| 0 <= j < i ==> entries@[j].0@ != key@,
                    decreases n - i,
                {
                    i += 1;
                }
                proof {
                    lemma_first_at_is(self@.entries(), under(key@), i as int);
                }
                if i < n {
                    Some(&entries[i].1)
                } else {
                    None
                }
            },
            _ => {
                proof {
                    lemma_first_at(self@.entries(), under(key@));
                }
                None
            },
        }
    }

    /// The value as a string: the text of a scalar, unless that is empty.
    pub fn as_str(&self) -> (r: Option<String>)
        ensures
            text_is(r, self@.as_str()),
    {
        let text: Option<String> = match self {
            Node::Text(s) => Some(s.clone()),
            Node::Integer(n) => Some(decimal_text(*n)),
            Node::Float { bits, text } => Some(text.clone()),
            Node::Bool(b) => Some(
                if *b {
                    "true".to_owned()
                } else {
                    "false".to_owned()
                },
            ),
            Node::Datetime(s) => Some(s.clone()),
            _ => None,
        };
        match text {
            Some(s) => if s.as_str().is_empty() {
                None
            } else {
                Some(s)
            },
            None => None,
        }
    }

    /// The value as a boolean: a boolean itself, or what a string says as a
    /// truth word.
    pub fn as_bool(&self) -> (r: Option<bool>)
        ensures
            r == self@.as_bool(),
    {
        match self {
            Node::Text(s) => parse_bool(s.as_str()),
            Node::Bool(b) => Some(*b),
            _ => None,
        }
    }

    /// The value as an integer: an integer itself, a number with a fraction
    /// truncated toward zero, or what a string says in decimal.
    pub fn as_i64(&self) -> (r: Option<i64>)
        ensures
            r == self@.as_i64(),
    {
        match self {
            Node::Text(s) => parse_i64(s.as_str()),
            Node::Integer(n) => Some(*n),
            Node::Float { bits, text } => Some(truncate(*bits)),
            _ => None,
        }
    }
}

impl Clone for Node {
    #[verifier::loop_isolation(false)]
    fn clone(&self) -> (r: Node)
        ensures
            r@ == self@,
        decreases self,
    {
        match self {
            Node::Null => Node::Null,
            Node::Bool(b) => Node::Bool(*b),
            Node::Integer(n) => Node::Integer(*n),
            Node::Float { bits, text } => Node::Float { bits: *bits, text: text.clone() },
            Node::Text(s) => Node::Text(s.clone()),
            Node::Datetime(s) => Node::Datetime(s.clone()),
            Node::List(items) => {
                let mut copy: Vec<Node> = Vec::new();
                let n: usize = items.len();
                let mut i: usize = 0;
                while i < n
                    invariant
                        n == items.len(),
                        i <= n,
                        copy.len() == i,
                        forall|j: int| 0 <= j < i ==> copy@[j]@ == items@[j]@,
                    decreases n - i,
                {
                    copy.push(items[i].clone());
                    i += 1;
                }
                let r = Node::List(copy);
                assert(r@ == self@) by {
                    assert(r@->List_0 =~= self@->List_0);
                }
                r
            },
            Node::Table(entries) => {
                let mut copy: Vec<(String, Node)> = Vec::new();
                let n: usize = entries.len();
                let mut i: usize = 0;
                while i < n
                    invariant
                        n == entries.len(),
                        i <= n,
                        copy.len() == i,
                        forall|j: int| 0 <= j < i ==> copy@[j].0@ == entries@[j].0@ && copy@[j].1@ == entries@[j].1@,
                    decreases n - i,
                {
                    copy.push((entries[i].0.clone(), entries[i].1.clone()));
                    i += 1;
                }
                let r = Node::Table(copy);
                assert(r@ == self@) by {
                    assert(r@->Table_0 =~= self@->Table_0);
                }
                r
            },
        }
    }
}

/// Resolves the dotted path `key` from `v`: `f` looks up one segment in one
/// value, and is asked once per segment, from left to right, until a lookup
/// fails or the path ends. An empty path resolves to nothing.
pub fn get<T, F>(v: T, key: &str, f: F) -> (r: Option<T>) where F: Fn(T, &str) -> Option<T>
    requires
        forall|t: T, s: &str| call_requires(f, (t, s)),
    ensures
        walks(f, v, key@, r),
        key@.len() == 0 ==> r is None,
    decreases key@.len(),
{
    if key.is_empty() {
        return None;
    }
    let (first, more) = split_path(key);
    let v2 = f(v, first);
    match more {
        None => v2,
        Some(tail) => match v2 {
            None => None,
            Some(v3) => get(v3, tail, f),
        },
    }
}

/// `r` is a possible outcome of resolving `key` from `v` by the lookup `f`.
pub open spec fn walks<T, F: Fn(T, &str) -> Option<T>>(f: F, v: T, key: Seq<char>, r: Option<T>) -> bool
    decreases key.len(),
{
    if key.len() == 0 {
        r is None
    } else {
        exists|first: &str, found: Option<T>|
            first@ == head(key) && #[trigger] call_ensures(f, (v, first), found) && if !has_dot(key) {
                r == found
            } else {
                match found {
                    None => r is None,
                    Some(child) => walks(f, child, rest(key), r),
                }
            }
    }
}

/// What a configuration holds: the view of a [`Config`]. The tag says which
/// of the two document formats the tree was read from.
pub enum Doc {
    JSON(Tree),
    TOML(Tree),
}

impl Doc {
    /// The tree, whatever the format.
    pub open spec fn root(self) -> Tree {
        match self {
            Doc::JSON(t) => t,
            Doc::TOML(t) => t,
        }
    }

    /// `t` under the format of `self`.
    pub open spec fn with_root(self, t: Tree) -> Doc {
        match self {
            Doc::JSON(_) => Doc::JSON(t),
            Doc::TOML(_) => Doc::TOML(t),
        }
    }

    /// The value at a dotted path, in the format of `self`.
    pub open spec fn get(self, path: Seq<char>) -> Option<Doc> {
        match self.root().resolve(path) {
            Some(t) => Some(self.with_root(t)),
            None => None,
        }
    }

    /// The names of the entries of a mapping, in order.
    pub open spec fn keys(self) -> Seq<Seq<char>> {
        self.root().keys()
    }

    /// The string at `path`: nothing where the path leads nowhere, where the
    /// value there has no text, or where its text is empty.
    pub open spec fn str(self, path: Seq<char>) -> Option<Seq<char>> {
        match self.root().resolve(path) {
            Some(t) => t.as_str(),
            None => None,
        }
    }

    /// The boolean at `path`: nothing where the path leads nowhere or the
    /// value there is no boolean and no truth word.
    pub open spec fn bool(self, path: Seq<char>) -> Option<bool> {
        match self.root().resolve(path) {
            Some(t) => t.as_bool(),
            None => None,
        }
    }

    /// The integer at `path`: nothing where the path leads nowhere or the
    /// value there is no number and no decimal text.
    pub open spec fn i64(self, path: Seq<char>) -> Option<i64> {
        match self.root().resolve(path) {
            Some(t) => t.as_i64(),
            None => None,
        }
    }

    /// The string at `path`, or `def` where there is none.
    pub open spec fn str_default(self, path: Seq<char>, def: Seq<char>) -> Seq<char> {
        match self.str(path) {
            Some(s) => s,
            None => def,
        }
    }

    /// The value at `path` from what `found` holds, if it holds anything.
    pub open spec fn then_get(found: Option<Doc>, path: Seq<char>) -> Option<Doc> {
        match found {
            Some(doc) => doc.get(path),
            None => None,
        }
    }
}

/// The dotted path made of `a`, a `.`, and `b`.
pub open spec fn joined(a: Seq<char>, b: Seq<char>) -> Seq<char> {
    a + seq!['.'] + b
}

/// Resolving the path `a.b` is resolving `a`, and then `b` from what was
/// found, for every `a` that is not empty and does not end in a `.`.
pub proof fn lemma_resolve_joined(t: Tree, a: Seq<char>, b: Seq<char>)
    requires
        a.len() > 0,
        a.last() != '.',
    ensures
        t.resolve(joined(a, b)) == match t.resolve(a) {
            Some(child) => child.resolve(b),
            None => None,
        },
    decreases a.len(),
{
    let p = joined(a, b);
    lemma_first_at(a, is_dot());
    let d = first_dot(a);
    assert forall|j: int| 0 <= j < a.len() implies p[j] == a[j] by {}
    if d < a.len() {
        lemma_first_at_is(p, is_dot(), d);
        assert(head(p) =~= head(a));
        assert(rest(p) =~= joined(rest(a), b));
        assert(rest(a).len() > 0 && rest(a).last() == a.last());
        match t.member(head(a)) {
            Some(child) => {
                lemma_resolve_joined(child, rest(a), b);
            },
            None => {},
        }
    } else {
        assert(p[a.len() as int] == '.');
        lemma_first_at_is(p, is_dot(), a.len() as int);
        assert(head(p) =~= a);
        assert(rest(p) =~= b);
    }
}

/// Path resolution is associative: the value at `a.b` is the value at `b`
/// of the value at `a`, for every `a` that is not empty and does not end in
/// a `.`.
pub proof fn lemma_get_joined(doc: Doc, a: Seq<char>, b: Seq<char>)
    requires
        a.len() > 0,
        a.last() != '.',
    ensures
        doc.get(joined(a, b)) == Doc::then_get(doc.get(a), b),
{
    lemma_resolve_joined(doc.root(), a, b);
}

/// The value at `a.b.c` is the value at `c` of the value at `b` of the value
/// at `a`, for all `a` and `b` that are not empty and do not end in a `.`.
pub proof fn lemma_get_segments(doc: Doc, a: Seq<char>, b: Seq<char>, c: Seq<char>)
    requires
        a.len() > 0,
        a.last() != '.',
        b.len() > 0,
        b.last() != '.',
    ensures
        doc.get(joined(a, joined(b, c))) == Doc::then_get(Doc::then_get(doc.get(a), b), c),
{
    lemma_get_joined(doc, a, joined(b, c));
    match doc.get(a) {
        Some(sub) => {
            lemma_get_joined(sub, b, c);
        },
        None => {},
    }
}

/// The empty path leads nowhere, in any document.
pub proof fn lemma_get_empty(doc: Doc)
    ensures
        doc.get(Seq::empty()) is None,
{
}

/// Where a path leads to an integer, reading the string at the path as a
/// decimal integer gives the integer at the path.
pub proof fn lemma_integer_as_str(doc: Doc, path: Seq<char>)
    requires
        doc.root().resolve(path) matches Some(t) && t is Integer,
    ensures
        doc.str(path) is Some,
        parse_decimal(doc.str(path).unwrap()) == doc.i64(path),
{
    let n = doc.root().resolve(path).unwrap()->Integer_0;
    lemma_decimal_round_trip(n);
    lemma_digits(
        if n < 0 {
            (-(n as int)) as nat
        } else {
            n as nat
        },
    );
}

/// The two formats agree: the same tree gives the same values, keys,
/// strings, booleans and integers at every path, whichever format it was
/// read from.
pub proof fn lemma_formats_agree(t: Tree, path: Seq<char>)
    ensures
        Doc::JSON(t).keys() == Doc::TOML(t).keys(),
        Doc::JSON(t).str(path) == Doc::TOML(t).str(path),
        Doc::JSON(t).bool(path) == Doc::TOML(t).bool(path),
        Doc::JSON(t).i64(path) == Doc::TOML(t).i64(path),
        match Doc::JSON(t).get(path) {
            Some(found) => Doc::TOML(t).get(path) == Some(Doc::TOML(found.root())),
            None => Doc::TOML(t).get(path) is None,
        },
{
}

/// An empty string counts as no string: a path to one gives what a path
/// that leads nowhere gives, with and without a default.
pub proof fn lemma_empty_string_is_absent(doc: Doc, path: Seq<char>, nowhere: Seq<char>, def: Seq<char>)
    requires
        doc.root().resolve(path) == Some(Tree::Text(Seq::empty())),
        doc.root().resolve(nowhere) is None,
    ensures
        doc.str(path) is None,
        doc.str(path) == doc.str(nowhere),
        doc.str_default(path, def) == def,
        doc.str_default(path, def) == doc.str_default(nowhere, def),
{
}

/// A configuration document, or a part of one, in one of the two formats.
#[derive(Debug)]
pub enum Config {
    JSON(Node),
    TOML(Node),
}

impl View for Config {
    type V = Doc;

    open spec fn view(&self) -> Doc {
        match self {
            Config::JSON(n) => Doc::JSON(n@),
            Config::TOML(n) => Doc::TOML(n@),
        }
    }
}

/// Whether a looked-up value stands for what the model finds.
pub open spec fn found(r: Option<&Node>, t: Option<Tree>) -> bool {
    match r {
        Some(n) => t == Some(n@),
        None => t is None,
    }
}

/// Resolving by lookups that find what `Tree::member` finds gives what
/// `Tree::resolve` gives.
pub proof fn lemma_walks_resolve<'a, F: Fn(&'a Node, &str) -> Option<&'a Node>>(
    f: F,
    v: &'a Node,
    key: Seq<char>,
    r: Option<&'a Node>,
)
    requires
        walks(f, v, key, r),
        forall|n: &'a Node, s: &str, out: Option<&'a Node>| #[trigger]
            call_ensures(f, (n, s), out) ==> found(out, n@.member(s@)),
    ensures
        found(r, v@.resolve(key)),
    decreases key.len(),
{
    if key.len() != 0 {
        let (first, hit): (&str, Option<&'a Node>) = choose|first: &str, hit: Option<&'a Node>|
            first@ == head(key) && #[trigger] call_ensures(f, (v, first), hit) && if !has_dot(key) {
                r == hit
            } else {
                match hit {
                    None => r is None,
                    Some(child) => walks(f, child, rest(key), r),
                }
            };
        if has_dot(key) {
            match hit {
                None => {},
                Some(child) => {
                    lemma_walks_resolve(f, child, rest(key), r);
                },
            }
        } else {
            assert(head(key) =~= key) by {
                lemma_first_at(key, is_dot());
            }
        }
    }
}

impl Config {
    /// The tree, whatever the format.
    pub fn root(&self) -> (n: &Node)
        ensures
            n@ == self@.root(),
    {
        match self {
            Config::JSON(n) => n,
            Config::TOML(n) => n,
        }
    }

    /// The value at the dotted path `key`, in the format of `self`: one
    /// lookup per segment, from left to right. Nothing where a lookup fails,
    /// where a value on the way is no mapping, or where `key` is empty.
    pub fn get<'a>(&'a self, key: &str) -> (r: Option<Config>)
        ensures
            match r {
                Some(c) => self@.get(key@) == Some(c@),
                None => self@.get(key@) is None,
            },
            key@.len() == 0 ==> r is None,
    {
        let lookup = |n: &'a Node, s: &str| -> (out: Option<&'a Node>)
            ensures
                found(out, n@.member(s@)),
            { n.child(s) };
        let root = self.root();
        let hit = get(root, key, lookup);
        proof {
            lemma_walks_resolve(lookup, root, key@, hit);
        }
        match hit {
            None => None,
            Some(n) => match self {
                Config::JSON(_) => Some(Config::JSON(n.clone())),
                Config::TOML(_) => Some(Config::TOML(n.clone())),
            },
        }
    }

    /// The names of the entries of a mapping, in the document's order; none
    /// for a value that is no mapping.
    pub fn keys(&self) -> (r: Vec<String>)
        ensures
            r.deep_view() == self@.keys(),
    {
        let mut names: Vec<String> = Vec::new();
        match self.root() {
            Node::Table(entries) => {
                let n: usize = entries.len();
                let mut i: usize = 0;
                while i < n
                    invariant
                        n == entries.len(),
                        i <= n,
                        names.len() == i,
                        forall|j: int| 0 <= j < i ==> names@[j]@ == entries@[j].0@,
                    decreases n - i,
                {
                    names.push(entries[i].0.clone());
                    i += 1;
                }
                assert(names.deep_view() =~= self@.keys());
            },
            _ => {
                assert(names.deep_view() =~= self@.keys());
            },
        }
        names
    }

    /// The string at the dotted path `key`: the text of the scalar there.
    /// Nothing where the path leads nowhere, where the value has no text, or
    /// where its text is empty.
    pub fn str(&self, key: &str) -> (r: Option<String>)
        ensures
            text_is(r, self@.str(key@)),
    {
        match self.get(key) {
            Some(c) => c.root().as_str(),
            None => None,
        }
    }

    /// The string at `key`, which must be there.
    pub fn str_must(&self, key: &str) -> (r: String)
        requires
            self@.str(key@) is Some,
        ensures
            self@.str(key@) == Some(r@),
    {
        match self.str(key) {
            Some(s) => s,
            None => unreached(),
        }
    }

    /// The string at `key`, or `def` where there is none.
    pub fn str_default(&self, key: &str, def: &str) -> (r: String)
        ensures
            r@ == self@.str_default(key@, def@),
    {
        match self.str(key) {
            Some(s) => s,
            None => def.to_owned(),
        }
    }

    /// The boolean at the dotted path `key`: a boolean itself, or a string
    /// that is a truth word. Nothing where the path leads nowhere or the
    /// value is neither.
    pub fn bool(&self, key: &str) -> (r: Option<bool>)
        ensures
            r == self@.bool(key@),
    {
        match self.get(key) {
            Some(c) => c.root().as_bool(),
            None => None,
        }
    }

    /// The boolean at `key`, which must be there.
    pub fn bool_must(&self, key: &str) -> (r: bool)
        requires
            self@.bool(key@) is Some,
        ensures
            self@.bool(key@) == Some(r),
    {
        match self.bool(key) {
            Some(b) => b,
            None => unreached(),
        }
    }

    /// The boolean at `key`, or `def` where there is none.
    pub fn bool_default(&self, key: &str, def: bool) -> (r: bool)
        ensures
            r == match self@.bool(key@) {
                Some(b) => b,
                None => def,
            },
    {
        match self.bool(key) {
            Some(b) => b,
            None => def,
        }
    }

    /// The integer at the dotted path `key`: an integer itself, a number
    /// with a fraction truncated toward zero, or a string in decimal. Nothing
    /// where the path leads nowhere or the value is none of these.
    pub fn i64(&self, key: &str) -> (r: Option<i64>)
        ensures
            r == self@.i64(key@),
    {
        match self.get(key) {
            Some(c) => c.root().as_i64(),
            None => None,
        }
    }

    /// The integer at `key`, which must be there.
    pub fn i64_must(&self, key: &str) -> (r: i64)
        requires
            self@.i64(key@) is Some,
        ensures
            self@.i64(key@) == Some(r),
    {
        match self.i64(key) {
            Some(n) => n,
            None => unreached(),
        }
    }

    /// The integer at `key`, or `def` where there is none.
    pub fn i64_default(&self, key: &str, def: i64) -> (r: i64)
        ensures
            r == match self@.i64(key@) {
                Some(n) => n,
                None => def,
            },
    {
        match self.i64(key) {
            Some(n) => n,
            None => def,
        }
    }
}

} // verus!
