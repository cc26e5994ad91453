//! Named templates read from a configuration document, and their rendering
//! against bindings given by a callback, a list or named pairs.

use vstd::prelude::*;
use vstd::pervasive::unreached;
use vstd::string::StringExecFns;
use crate::config::{Config, Doc};
use crate::search::{first_at, lemma_first_at, lemma_first_at_is};
use crate::text::same_text;
use crate::template::{lemma_parts_and_names, lemma_spliced_prefix, literal_parts, names_of, parts_of, placeholder_names, spliced, substituted};

verus! {

/// The kinds of template.
#[derive(Debug, Clone, Copy, PartialEq, Eq, Structural)]
pub enum SqlType {
    QueryList,
}

/// What a template definition holds: the view of a [`SqlDef`].
pub struct Template {
    pub name: Seq<char>,
    pub typ: SqlType,
    pub body: Seq<char>,
}

/// A template definition: a name, a kind, and a body with placeholders.
#[derive(Debug)]
pub struct SqlDef {
    pub name: String,
    pub typ: SqlType,
    pub sql: String,
}

impl View for SqlDef {
    type V = Template;

    open spec fn view(&self) -> Template {
        Template { name: self.name@, typ: self.typ, body: self.sql@ }
    }
}

/// Why a list or pairs cannot render a template.
#[derive(Debug, Clone, Copy, PartialEq, Eq, Structural)]
pub enum RenderError {
    /// The list holds fewer items than the body has placeholders.
    Exhausted,
    /// A placeholder's name is the key of no pair.
    Unbound,
}

/// `out` is what the callback `f` may answer when asked for `name`.
pub open spec fn answers<F: Fn(&str) -> String>(f: F, name: Seq<char>, out: Seq<char>) -> bool {
    exists|asked: &str, answer: String| asked@ == name && answer@ == out && #[trigger] call_ensures(f, (asked,), answer)
}

/// Whether the callback `f` may be asked for every placeholder of `body`.
pub open spec fn answers_all<F: Fn(&str) -> String>(f: F, body: Seq<char>) -> bool {
    forall|i: int, asked: &str| 0 <= i < names_of(body).len() && asked@ == #[trigger] names_of(body)[i] ==> #[trigger] call_requires(f, (asked,))
}

/// `out` is a text that may result when each placeholder of `body` is
/// replaced by what `f` answers for its name.
pub open spec fn rendered_by<F: Fn(&str) -> String>(f: F, body: Seq<char>, out: Seq<char>) -> bool {
    exists|subs: Seq<Seq<char>>|
        {
            &&& subs.len() == names_of(body).len()
            &&& forall|i: int| 0 <= i < subs.len() ==> answers(f, names_of(body)[i], #[trigger] subs[i])
            &&& out == substituted(body, subs)
        }
}

/// The texts of a list of strings, in order.
pub open spec fn texts(items: Seq<&str>) -> Seq<Seq<char>> {
    Seq::new(items.len(), |i: int| items[i]@)
}

/// The parts of a body with substitutes between them: the first part, the
/// first substitute, the second part, and so on to the last part.
fn splice(parts: &Vec<String>, subs: &Vec<&str>) -> (out: String)
    requires
        1 <= parts.len() <= subs.len() + 1,
    ensures
        out@ == spliced(parts.deep_view(), texts(subs@), (parts.len() - 1) as nat),
{
    let ghost ps = parts.deep_view();
    let ghost ss = texts(subs@);
    assert(parts[0]@ == ps[0]);
    let mut out = parts[0].clone();
    let n: usize = parts.len() - 1;
    let mut i: usize = 0;
    while i < n
        invariant
            parts.len() == n + 1,
            n <= subs.len(),
            i <= n,
            ps == parts.deep_view(),
            ss == texts(subs@),
            out@ == spliced(ps, ss, i as nat),
        decreases n - i,
    {
        assert(subs[i as int]@ == ss[i as int]);
        out.append(subs[i]);
        assert(parts[i + 1]@ == ps[i + 1]);
        out.append(parts[i + 1].as_str());
        i += 1;
    }
    out
}

/// Renders `sql_def` by the callback `f`: each placeholder is replaced by
/// what `f` answers for its name. `f` is asked once for each placeholder,
/// from left to right.
pub fn render_callback<F: Fn(&str) -> String>(sql_def: &SqlDef, f: &F) -> (out: String)
    requires
        answers_all(*f, sql_def@.body),
    ensures
        rendered_by(*f, sql_def@.body, out@),
{
    let body = sql_def.sql.as_str();
    let parts = literal_parts(body);
    let names = placeholder_names(body);
    proof {
        lemma_parts_and_names(body@);
    }
    let ghost ns = names_of(body@);
    assert(parts.len() == parts_of(body@).len() && names.len() == ns.len());
    let n: usize = names.len();
    let mut answered: Vec<String> = Vec::new();
    let mut i: usize = 0;
    while i < n
        invariant
            n == names.len(),
            i <= n,
            ns == names.deep_view(),
            ns == names_of(sql_def@.body),
            answers_all(*f, sql_def@.body),
            answered.len() == i,
            forall|k: int| 0 <= k < i ==> answers(*f, ns[k], (#[trigger] answered@[k])@),
        decreases n - i,
    {
        let name = names[i].as_str();
        assert(name@ == ns[i as int]);
        let answer = f(name);
        assert(answers(*f, ns[i as int], answer@));
        answered.push(answer);
        i += 1;
    }
    let mut subs: Vec<&str> = Vec::new();
    let mut j: usize = 0;
    while j < n
        invariant
            n == answered.len(),
            j <= n,
            subs.len() == j,
            forall|k: int| 0 <= k < j ==> (#[trigger] subs@[k])@ == answered@[k]@,
        decreases n - j,
    {
        subs.push(answered[j].as_str());
        j += 1;
    }
    let out = splice(&parts, &subs);
    proof {
        let given = texts(subs@);
        assert forall|k: int| 0 <= k < given.len() implies answers(*f, ns[k], #[trigger] given[k]) by {
            assert(given[k] == answered@[k]@);
        }
        assert(out@ == substituted(sql_def@.body, given));
    }
    out
}

/// The first `n` items of a list, as texts.
pub open spec fn listed(args: Seq<&str>, n: nat) -> Seq<Seq<char>> {
    Seq::new(n, |i: int| args[i]@)
}

/// Renders `sql_def` by the list `args`: the placeholder at position `i`
/// from the left is replaced by `args[i]`, whatever its name. A list with
/// fewer items than the body has placeholders renders nothing; items beyond
/// the placeholders are left unused.
pub fn render_list(sql_def: &SqlDef, args: &Vec<&str>) -> (r: Result<String, RenderError>)
    ensures
        match r {
            Ok(out) => names_of(sql_def@.body).len() <= args.len() && out@ == substituted(
                sql_def@.body,
                listed(args@, names_of(sql_def@.body).len()),
            ),
            Err(e) => e == RenderError::Exhausted && args.len() < names_of(sql_def@.body).len(),
        },
{
    let body = sql_def.sql.as_str();
    let parts = literal_parts(body);
    proof {
        lemma_parts_and_names(body@);
    }
    assert(parts.len() == parts_of(body@).len());
    if args.len() < parts.len() - 1 {
        return Err(RenderError::Exhausted);
    }
    let out = splice(&parts, args);
    proof {
        let n = names_of(body@).len();
        lemma_spliced_prefix(parts_of(body@), texts(args@), listed(args@, n), n);
    }
    Ok(out)
}

/// The condition on a pair of having the key `name`.
pub open spec fn keyed<'a>(name: Seq<char>) -> spec_fn((&'a str, &'a str)) -> bool {
    |p: (&'a str, &'a str)| p.0@ == name
}

/// The position of the first pair whose key is `name`, or the number of
/// pairs where there is none.
pub open spec fn pair_at(pairs: Seq<(&str, &str)>, name: Seq<char>) -> int {
    first_at(pairs, keyed(name))
}

/// Whether every one of `names` is the key of a pair.
pub open spec fn all_bound(pairs: Seq<(&str, &str)>, names: Seq<Seq<char>>) -> bool {
    forall|i: int| 0 <= i < names.len() ==> 0 <= pair_at(pairs, #[trigger] names[i]) < pairs.len()
}

/// For each of `names`, the value of the first pair under it.
pub open spec fn paired(pairs: Seq<(&str, &str)>, names: Seq<Seq<char>>) -> Seq<Seq<char>> {
    Seq::new(names.len(), |i: int| pairs[pair_at(pairs, names[i])].1@)
}

/// The value of the first of `pairs` whose key is `name`.
fn value_of<'a>(pairs: &Vec<(&'a str, &'a str)>, name: &str) -> (r: Option<&'a str>)
    ensures
        match r {
            Some(v) => 0 <= pair_at(pairs@, name@) < pairs.len() && v@ == pairs@[pair_at(pairs@, name@)].1@,
            None => pair_at(pairs@, name@) == pairs.len(),
        },
{
    let n: usize = pairs.len();
    let mut i: usize = 0;
    while i < n && !same_text(pairs[i].0, name)
        invariant
            n == pairs.len(),
            i <= n,
            forall|j: int| 0 <= j < i ==> (#[trigger] pairs@[j]).0@ != name@,
        decreases n - i,
    {
        i += 1;
    }
    proof {
        lemma_first_at_is(pairs@, keyed(name@), i as int);
    }
    if i < n {
        Some(pairs[i].1)
    } else {
        None
    }
}

/// Renders `sql_def` by the pairs `args`: each placeholder is replaced by
/// the value of the first pair whose key is its name. Where a placeholder's
/// name is the key of no pair, nothing is rendered.
pub fn render_pairs(sql_def: &SqlDef, args: &Vec<(&str, &str)>) -> (r: Result<String, RenderError>)
    ensures
        match r {
            Ok(out) => all_bound(args@, names_of(sql_def@.body)) && out@ == substituted(
                sql_def@.body,
                paired(args@, names_of(sql_def@.body)),
            ),
            Err(e) => e == RenderError::Unbound && !all_bound(args@, names_of(sql_def@.body)),
        },
{
    let body = sql_def.sql.as_str();
    let parts = literal_parts(body);
    let names = placeholder_names(body);
    proof {
        lemma_parts_and_names(body@);
    }
    let ghost ns = names_of(body@);
    assert(parts.len() == parts_of(body@).len() && names.len() == ns.len());
    let n: usize = names.len();
    let mut subs: Vec<&str> = Vec::new();
    let mut i: usize = 0;
    while i < n
        invariant
            n == names.len(),
            i <= n,
            ns == names.deep_view(),
            ns == names_of(sql_def@.body),
            subs.len() == i,
            forall|k: int| 0 <= k < i ==> 0 <= pair_at(args@, #[trigger] ns[k]) < args.len(),
            forall|k: int| 0 <= k < i ==> (#[trigger] subs@[k])@ == paired(args@, ns)[k],
        decreases n - i,
    {
        assert(names[i as int]@ == ns[i as int]);
        match value_of(args, names[i].as_str()) {
            Some(v) => {
                subs.push(v);
            },
            None => {
                assert(!(0 <= pair_at(args@, ns[i as int]) < args.len()));
                return Err(RenderError::Unbound);
            },
        }
        i += 1;
    }
    let out = splice(&parts, &subs);
    assert(texts(subs@) =~= paired(args@, ns));
    Ok(out)
}

/// A source of bindings that renders a template definition to text.
pub trait SqlRenderer {
    /// Whether this source has a binding for every placeholder of `def`.
    spec fn can_render(&self, def: Template) -> bool;

    /// `out` is a text that this source may render `def` to.
    spec fn renders(&self, def: Template, out: Seq<char>) -> bool;

    /// The body of `sql_def` with each placeholder replaced.
    fn render(&self, sql_def: &SqlDef) -> (out: String)
        requires
            self.can_render(sql_def@),
        ensures
            self.renders(sql_def@, out@),
    ;
}

impl<F> SqlRenderer for F where F: Fn(&str) -> String {
    open spec fn can_render(&self, def: Template) -> bool {
        answers_all(*self, def.body)
    }

    open spec fn renders(&self, def: Template, out: Seq<char>) -> bool {
        rendered_by(*self, def.body, out)
    }

    fn render(&self, sql_def: &SqlDef) -> (out: String) {
        render_callback(sql_def, self)
    }
}

impl<'a> SqlRenderer for Vec<&'a str> {
    open spec fn can_render(&self, def: Template) -> bool {
        names_of(def.body).len() <= self.len()
    }

    open spec fn renders(&self, def: Template, out: Seq<char>) -> bool {
        out == substituted(def.body, listed(self@, names_of(def.body).len()))
    }

    fn render(&self, sql_def: &SqlDef) -> (out: String) {
        match render_list(sql_def, self) {
            Ok(out) => out,
            Err(_) => unreached(),
        }
    }
}

impl<'a> SqlRenderer for Vec<(&'a str, &'a str)> {
    open spec fn can_render(&self, def: Template) -> bool {
        all_bound(self@, names_of(def.body))
    }

    open spec fn renders(&self, def: Template, out: Seq<char>) -> bool {
        out == substituted(def.body, paired(self@, names_of(def.body)))
    }

    fn render(&self, sql_def: &SqlDef) -> (out: String) {
        match render_pairs(sql_def, self) {
            Ok(out) => out,
            Err(_) => unreached(),
        }
    }
}

/// The name of the one kind of template, which is also the kind of a
/// definition that names none.
pub open spec fn query_list() -> Seq<char> {
    "query_list"@
}

impl SqlType {
    /// The kind that `typ` names, if it names one.
    pub open spec fn of(typ: Seq<char>) -> Option<SqlType> {
        if typ == query_list() {
            Some(SqlType::QueryList)
        } else {
            None
        }
    }

    /// The kind that `typ` names, if it names one.
    pub fn parse(typ: &str) -> (r: Option<SqlType>)
        ensures
            r == SqlType::of(typ@),
    {
        if same_text(typ, "query_list") {
            Some(SqlType::QueryList)
        } else {
            None
        }
    }

    /// The kind that `typ` names, which must name one.
    pub fn new(typ: &str) -> (r: SqlType)
        requires
            SqlType::of(typ@) is Some,
        ensures
            SqlType::of(typ@) == Some(r),
    {
        match SqlType::parse(typ) {
            Some(t) => t,
            None => unreached(),
        }
    }
}

/// Why a document defines no template under a key.
#[derive(Debug, Clone, Copy, PartialEq, Eq, Structural)]
pub enum LoadError {
    /// The key, read as a dotted path, leads nowhere in the document.
    NoEntry,
    /// The entry has no `sql` field with text in it.
    MissingSql,
    /// The entry's `type` field names no kind of template.
    UnsupportedType,
}

/// The name of the field that holds a template's body.
pub open spec fn sql_key() -> Seq<char> {
    "sql"@
}

/// The name of the field that holds a template's kind.
pub open spec fn type_key() -> Seq<char> {
    "type"@
}

impl SqlDef {
    /// The template that the entry `doc` defines under `name`: its body is
    /// the string at `sql`, and its kind the one that the string at `type`
    /// names, or `query_list` where there is no such string. A missing body
    /// is reported before an unknown kind.
    pub open spec fn defined(name: Seq<char>, doc: Doc) -> Result<Template, LoadError> {
        let kind = match doc.str(type_key()) {
            Some(t) => t,
            None => query_list(),
        };
        match doc.str(sql_key()) {
            None => Err(LoadError::MissingSql),
            Some(body) => match SqlType::of(kind) {
                None => Err(LoadError::UnsupportedType),
                Some(typ) => Ok(Template { name, typ, body }),
            },
        }
    }

    /// Reads the template that the entry `config` defines under `name`.
    pub fn load(name: &str, config: &Config) -> (r: Result<SqlDef, LoadError>)
        ensures
            match r {
                Ok(def) => SqlDef::defined(name@, config@) == Ok::<Template, LoadError>(def@),
                Err(e) => SqlDef::defined(name@, config@) == Err::<Template, LoadError>(e),
            },
    {
        let typ = config.str_default("type", "query_list");
        match config.str("sql") {
            None => Err(LoadError::MissingSql),
            Some(sql) => match SqlType::parse(typ.as_str()) {
                None => Err(LoadError::UnsupportedType),
                Some(typ) => Ok(SqlDef { name: name.to_owned(), typ, sql }),
            },
        }
    }

    /// The template that the entry `config` defines under `name`, which
    /// must define one.
    pub fn new(name: &str, config: &Config) -> (r: SqlDef)
        requires
            SqlDef::defined(name@, config@) is Ok,
        ensures
            SqlDef::defined(name@, config@) == Ok::<Template, LoadError>(r@),
    {
        match SqlDef::load(name, config) {
            Ok(def) => def,
            Err(_) => unreached(),
        }
    }
}

/// The template that the document `doc` defines under its key `name`: the
/// one that the entry does which `name`, read as a dotted path, leads to.
pub open spec fn entry(doc: Doc, name: Seq<char>) -> Result<Template, LoadError> {
    match doc.get(name) {
        None => Err(LoadError::NoEntry),
        Some(sub) => SqlDef::defined(name, sub),
    }
}

/// The condition on a key of `doc` that `doc` defines no template under it.
pub open spec fn faulty(doc: Doc) -> spec_fn(Seq<char>) -> bool {
    |k: Seq<char>| entry(doc, k) is Err
}

/// The position of the first key of `doc` under which it defines no
/// template, or the number of its keys where it has none such.
pub open spec fn first_fault(doc: Doc) -> int {
    first_at(doc.keys(), faulty(doc))
}

/// Whether `doc` defines a template under every one of its keys.
pub open spec fn loadable(doc: Doc) -> bool {
    first_fault(doc) == doc.keys().len()
}

/// The templates that `doc` defines, by name: one under each of its keys.
pub open spec fn templates(doc: Doc) -> Map<Seq<char>, Template> {
    Map::new(|name: Seq<char>| doc.keys().contains(name), |name: Seq<char>| entry(doc, name)->Ok_0)
}

/// The condition on a definition of being called `name`.
pub open spec fn called(name: Seq<char>) -> spec_fn(SqlDef) -> bool {
    |d: SqlDef| d.name@ == name
}

/// The position of the first of `defs` called `name`, or their number where
/// none is.
pub open spec fn position(defs: Seq<SqlDef>, name: Seq<char>) -> int {
    first_at(defs, called(name))
}

/// The definitions `defs` by name: under each name the first so called.
pub open spec fn by_name(defs: Seq<SqlDef>) -> Map<Seq<char>, Template> {
    Map::new(|name: Seq<char>| 0 <= position(defs, name) < defs.len(), |name: Seq<char>| defs[position(defs, name)]@)
}

/// Whether no two of `defs` have the same name.
pub open spec fn distinct(defs: Seq<SqlDef>) -> bool {
    forall|i: int, j: int| 0 <= i < j < defs.len() ==> (#[trigger] defs[i]).name@ != (#[trigger] defs[j]).name@
}

/// The first of `defs` called `name`, if one is.
fn find_def<'a>(defs: &'a Vec<SqlDef>, name: &str) -> (r: Option<&'a SqlDef>)
    ensures
        match r {
            Some(def) => by_name(defs@).contains_key(name@) && by_name(defs@)[name@] == def@,
            None => !by_name(defs@).contains_key(name@),
        },
{
    let n: usize = defs.len();
    let mut i: usize = 0;
    while i < n && !same_text(defs[i].name.as_str(), name)
        invariant
            n == defs.len(),
            i <= n,
            forall|j: int| 0 <= j < i ==> (#[trigger] defs@[j]).name@ != name@,
        decreases n - i,
    {
        i += 1;
    }
    proof {
        lemma_first_at_is(defs@, called(name@), i as int);
    }
    if i < n {
        Some(&defs[i])
    } else {
        None
    }
}

/// After a definition with a new name is appended, each name stands where
/// it stood, and the new name at the end.
proof fn lemma_position_after_push(before: Seq<SqlDef>, def: SqlDef, name: Seq<char>)
    requires
        position(before, def.name@) == before.len(),
    ensures
        position(before.push(def), name) == if name == def.name@ {
            before.len() as int
        } else if position(before, name) < before.len() {
            position(before, name)
        } else {
            before.len() as int + 1
        },
{
    let after = before.push(def);
    lemma_first_at(before, called(name));
    let at = position(before, name);
    assert forall|j: int| 0 <= j < before.len() implies after[j] == before[j] by {}
    if name == def.name@ {
        lemma_first_at_is(after, called(name), before.len() as int);
    } else if at < before.len() {
        lemma_first_at_is(after, called(name), at);
    } else {
        lemma_first_at_is(after, called(name), after.len() as int);
    }
}

/// Appends `def` to `defs` unless one of its name is there already.
fn insert_def(defs: &mut Vec<SqlDef>, def: SqlDef)
    requires
        distinct(old(defs)@),
    ensures
        distinct(final(defs)@),
        by_name(final(defs)@) == if by_name(old(defs)@).contains_key(def@.name) {
            by_name(old(defs)@)
        } else {
            by_name(old(defs)@).insert(def@.name, def@)
        },
{
    if find_def(defs, def.name.as_str()).is_none() {
        let ghost before = defs@;
        let ghost fresh = def;
        defs.push(def);
        proof {
            lemma_first_at(before, called(fresh.name@));
            assert forall|name: Seq<char>| #![auto]
                position(before.push(fresh), name) == if name == fresh.name@ {
                    before.len() as int
                } else if position(before, name) < before.len() {
                    position(before, name)
                } else {
                    before.len() as int + 1
                } by {
                lemma_position_after_push(before, fresh, name);
            }
            assert forall|name: Seq<char>| 0 <= #[trigger] position(before, name) by {
                lemma_first_at(before, called(name));
            }
            assert(by_name(defs@) =~= by_name(before).insert(fresh@.name, fresh@));
            assert forall|i: int, j: int| 0 <= i < j < defs@.len() implies (#[trigger] defs@[i]).name@ != (
            #[trigger] defs@[j]).name@ by {
                if j == before.len() {
                    assert(defs@[i] == before[i]);
                }
            }
        }
    }
}

/// The templates of a document, by name.
pub struct DbContext {
    sql_defs: Vec<SqlDef>,
}

impl View for DbContext {
    type V = Map<Seq<char>, Template>;

    closed spec fn view(&self) -> Map<Seq<char>, Template> {
        by_name(self.sql_defs@)
    }
}

impl DbContext {
    /// No two definitions have the same name.
    #[verifier::type_invariant]
    closed spec fn well_formed(self) -> bool {
        distinct(self.sql_defs@)
    }

    /// The definition called `name`, if there is one.
    pub fn find(&self, name: &str) -> (r: Option<&SqlDef>)
        ensures
            match r {
                Some(def) => self@.contains_key(name@) && self@[name@] == def@,
                None => !self@.contains_key(name@),
            },
    {
        find_def(&self.sql_defs, name)
    }

    /// Reads the templates that `config` defines: for each of its keys, in
    /// order, the one under that key. The first key under which it defines
    /// none ends the reading, with the reason.
    pub fn load(config: &Config) -> (r: Result<DbContext, LoadError>)
        ensures
            match r {
                Ok(ctx) => loadable(config@) && ctx@ == templates(config@),
                Err(e) => 0 <= first_fault(config@) < config@.keys().len() && entry(
                    config@,
                    config@.keys()[first_fault(config@)],
                ) == Err::<Template, LoadError>(e),
            },
    {
        let keys = config.keys();
        let ghost doc = config@;
        let ghost names = doc.keys();
        let mut defs: Vec<SqlDef> = Vec::new();
        let n: usize = keys.len();
        let mut i: usize = 0;
        proof {
            assert forall|name: Seq<char>| !(#[trigger] by_name(defs@).contains_key(name)) by {
                lemma_first_at(defs@, called(name));
            }
        }
        while i < n
            invariant
                n == keys.len(),
                i <= n,
                doc == config@,
                names == doc.keys(),
                names == keys.deep_view(),
                distinct(defs@),
                forall|k: int| 0 <= k < i ==> entry(doc, #[trigger] names[k]) is Ok,
                forall|k: int| 0 <= k < i ==> by_name(defs@).contains_key(#[trigger] names[k]),
                forall|name: Seq<char>| #[trigger]
                    by_name(defs@).contains_key(name) ==> names.contains(name) && entry(doc, name) == Ok::<
                        Template,
                        LoadError,
                    >(by_name(defs@)[name]),
            decreases n - i,
        {
            let key = keys[i].as_str();
            assert(key@ == names[i as int]);
            let found = match config.get(key) {
                None => Err(LoadError::NoEntry),
                Some(sub) => SqlDef::load(key, &sub),
            };
            match found {
                Err(e) => {
                    proof {
                        lemma_first_at_is(names, faulty(doc), i as int);
                    }
                    return Err(e);
                },
                Ok(def) => {
                    insert_def(&mut defs, def);
                },
            }
            i += 1;
        }
        proof {
            lemma_first_at_is(names, faulty(doc), n as int);
            assert(by_name(defs@) =~= templates(doc));
        }
        Ok(DbContext { sql_defs: defs })
    }

    /// The templates that `config` defines, which must define one under
    /// every one of its keys.
    pub fn new(config: &Config) -> (r: DbContext)
        requires
            loadable(config@),
        ensures
            r@ == templates(config@),
    {
        match DbContext::load(config) {
            Ok(ctx) => ctx,
            Err(_) => unreached(),
        }
    }

    /// Renders the template called `name` by the bindings `r`.
    pub fn sql<R: SqlRenderer>(&self, name: &str, r: R) -> (out: String)
        requires
            self@.contains_key(name@),
            r.can_render(self@[name@]),
        ensures
            r.renders(self@[name@], out@),
    {
        match self.find(name) {
            Some(def) => r.render(def),
            None => unreached(),
        }
    }

    /// Runs the query that the template called `name` renders to. Nothing
    /// is run yet.
    pub fn query<R: SqlRenderer>(&self, name: &str, r: R) {
    }

    /// Runs the statement that the template called `name` renders to.
    /// Nothing is run yet.
    pub fn exec<R: SqlRenderer>(&self, name: &str, r: R) {
    }
}

} // verus!
