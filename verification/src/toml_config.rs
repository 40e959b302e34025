//! The project configuration, read from the text of `kujav.toml`.
use vstd::prelude::*;
use vstd::string::*;
use crate::errors::{ErrorKind, ErrorModel, KujavError};
use crate::scan::{
    Strip,
    find,
    less,
    lex_less,
    pieces,
    pieces_model,
    position,
    slice_of,
    split,
    strip,
    stripped,
};
use crate::text::{chars_of, str_eq, string_of};

verus! {

/// What `[package]` holds.
#[derive(Debug)]
pub struct Package {
    pub name: String,
    pub version: String,
    pub main: String,
    pub edition: String,
}

/// What `[java]` holds.
#[derive(Debug)]
pub struct JavaConfig {
    pub classpath: Vec<String>,
}

/// What `[minecraft]` holds.
#[derive(Debug)]
pub struct MinecraftConfig {
    pub plugin_name: String,
    pub plugin_version: String,
    pub main_class: String,
    pub api: String,
}

/// What `[dependencies]` holds: a version for each name, in the order of
/// the names.
#[derive(Debug)]
pub struct Dependencies {
    entries: Vec<(String, String)>,
}

/// The project configuration.
#[derive(Debug)]
pub struct KujavToml {
    pub package: Package,
    pub dependencies: Dependencies,
    pub java: JavaConfig,
    pub minecraft: Option<MinecraftConfig>,
}

/// What `[package]` holds, as a mathematical value.
pub struct PackageModel {
    pub name: Seq<char>,
    pub version: Seq<char>,
    pub main: Seq<char>,
    pub edition: Seq<char>,
}

/// What `[minecraft]` holds, as a mathematical value.
pub struct MinecraftModel {
    pub plugin_name: Seq<char>,
    pub plugin_version: Seq<char>,
    pub main_class: Seq<char>,
    pub api: Seq<char>,
}

/// The project configuration as a mathematical value.
pub struct ConfigModel {
    pub package: PackageModel,
    pub dependencies: Seq<(Seq<char>, Seq<char>)>,
    pub classpath: Seq<Seq<char>>,
    pub minecraft: Option<MinecraftModel>,
}

impl View for Package {
    type V = PackageModel;

    open spec fn view(&self) -> PackageModel {
        PackageModel {
            name: self.name@,
            version: self.version@,
            main: self.main@,
            edition: self.edition@,
        }
    }
}

impl View for MinecraftConfig {
    type V = MinecraftModel;

    open spec fn view(&self) -> MinecraftModel {
        MinecraftModel {
            plugin_name: self.plugin_name@,
            plugin_version: self.plugin_version@,
            main_class: self.main_class@,
            api: self.api@,
        }
    }
}

/// The characters of each text.
pub open spec fn texts_model(ts: Seq<String>) -> Seq<Seq<char>> {
    Seq::new(ts.len(), |i: int| ts[i]@)
}

impl View for JavaConfig {
    type V = Seq<Seq<char>>;

    open spec fn view(&self) -> Seq<Seq<char>> {
        texts_model(self.classpath@)
    }
}

impl View for Dependencies {
    type V = Seq<(Seq<char>, Seq<char>)>;

    closed spec fn view(&self) -> Seq<(Seq<char>, Seq<char>)> {
        Seq::new(self.entries@.len(), |i: int| (self.entries@[i].0@, self.entries@[i].1@))
    }
}

impl View for KujavToml {
    type V = ConfigModel;

    open spec fn view(&self) -> ConfigModel {
        ConfigModel {
            package: self.package@,
            dependencies: self.dependencies@,
            classpath: self.java@,
            minecraft: match self.minecraft {
                Some(m) => Some(m@),
                None => None,
            },
        }
    }
}

/// The number of entries from `from` on whose names come before `name`
/// without a break, added to `from`: where `name` belongs.
pub open spec fn rank(deps: Seq<(Seq<char>, Seq<char>)>, name: Seq<char>, from: int) -> int
    decreases deps.len() - from,
{
    if 0 <= from < deps.len() && lex_less(deps[from].0, name) {
        rank(deps, name, from + 1)
    } else {
        from
    }
}

/// The entries with `name` set to `version`: in place of the entry of that
/// name if there is one, and where the order of the names puts it if not.
pub open spec fn inserted(
    deps: Seq<(Seq<char>, Seq<char>)>,
    name: Seq<char>,
    version: Seq<char>,
) -> Seq<(Seq<char>, Seq<char>)> {
    if rank(deps, name, 0) < deps.len() && deps[rank(deps, name, 0)].0 == name {
        deps.update(rank(deps, name, 0), (name, version))
    } else {
        deps.insert(rank(deps, name, 0), (name, version))
    }
}

/// Whether the names stand in their order, each once.
pub open spec fn in_order(deps: Seq<(Seq<char>, Seq<char>)>) -> bool {
    forall|i: int, j: int| 0 <= i < j < deps.len() ==> lex_less(deps[i].0, deps[j].0)
}

proof fn lemma_rank(deps: Seq<(Seq<char>, Seq<char>)>, name: Seq<char>, from: int)
    requires
        0 <= from <= deps.len(),
    ensures
        from <= rank(deps, name, from) <= deps.len(),
        forall|i: int| from <= i < rank(deps, name, from) ==> lex_less(deps[i].0, name),
        rank(deps, name, from) < deps.len() ==> !lex_less(deps[rank(deps, name, from)].0, name),
    decreases deps.len() - from,
{
    if from < deps.len() && lex_less(deps[from].0, name) {
        lemma_rank(deps, name, from + 1);
    }
}

proof fn lemma_lex_transitive(a: Seq<char>, b: Seq<char>, c: Seq<char>)
    requires
        lex_less(a, b),
        lex_less(b, c),
    ensures
        lex_less(a, c),
    decreases a.len(),
{
    if a.len() > 0 && a[0] == b[0] && b[0] == c[0] {
        lemma_lex_transitive(a.drop_first(), b.drop_first(), c.drop_first());
    }
}

proof fn lemma_lex_total(a: Seq<char>, b: Seq<char>)
    requires
        !lex_less(a, b),
        a != b,
    ensures
        lex_less(b, a),
    decreases a.len(),
{
    if a.len() > 0 && b.len() > 0 && a[0] == b[0] {
        if a.drop_first() == b.drop_first() {
            assert(a =~= seq![a[0]] + a.drop_first());
            assert(b =~= seq![b[0]] + b.drop_first());
        }
        lemma_lex_total(a.drop_first(), b.drop_first());
    } else if a.len() == 0 {
        assert(b.len() == 0);
        assert(a =~= b);
    }
}

/// Setting a version keeps the names in their order, each once.
pub proof fn lemma_inserted_in_order(
    deps: Seq<(Seq<char>, Seq<char>)>,
    name: Seq<char>,
    version: Seq<char>,
)
    requires
        in_order(deps),
    ensures
        in_order(inserted(deps, name, version)),
{
    let p = rank(deps, name, 0);
    let after = inserted(deps, name, version);
    lemma_rank(deps, name, 0);
    if p < deps.len() && deps[p].0 == name {
    } else {
        assert forall|i: int, j: int| 0 <= i < j < after.len() implies lex_less(
            after[i].0,
            after[j].0,
        ) by {
            if j == p {
                assert(after[i] == deps[i]);
            } else if i == p {
                assert(after[j] == deps[j - 1]);
                lemma_lex_total(deps[p].0, name);
                if j - 1 > p {
                    assert(lex_less(deps[p].0, deps[j - 1].0));
                    lemma_lex_transitive(name, deps[p].0, deps[j - 1].0);
                }
            } else {
                let oi = if i < p {
                    i
                } else {
                    i - 1
                };
                let oj = if j < p {
                    j
                } else {
                    j - 1
                };
                assert(after[i] == deps[oi]);
                assert(after[j] == deps[oj]);
            }
        }
    }
}

fn comes_before(a: &str, key: &Vec<char>) -> (r: bool)
    ensures
        r == lex_less(a@, key@),
{
    let there = chars_of(a);
    less(&there, key)
}

impl Dependencies {
    /// The names stand in their order, each once.
    pub closed spec fn wf(&self) -> bool {
        in_order(self@)
    }

    /// No dependencies.
    pub fn new() -> (deps: Dependencies)
        ensures
            deps@ == Seq::<(Seq<char>, Seq<char>)>::empty(),
            deps.wf(),
    {
        let deps = Dependencies { entries: Vec::new() };
        assert(deps@ =~= Seq::<(Seq<char>, Seq<char>)>::empty());
        deps
    }

    /// The number of dependencies.
    pub fn len(&self) -> (n: usize)
        ensures
            n == self@.len(),
    {
        self.entries.len()
    }

    /// The name and the version of the dependency at `index`.
    pub fn get(&self, index: usize) -> (entry: Option<(&str, &str)>)
        ensures
            match entry {
                Some((name, version)) => index < self@.len() && self@[index as int] == (
                    name@,
                    version@,
                ),
                None => index >= self@.len(),
            },
    {
        if index < self.entries.len() {
            Some((self.entries[index].0.as_str(), self.entries[index].1.as_str()))
        } else {
            None
        }
    }

    /// Sets the version of `name`.
    pub fn insert(&mut self, name: String, version: String)
        requires
            old(self).wf(),
        ensures
            final(self).wf(),
            final(self)@ == inserted(old(self)@, name@, version@),
    {
        let key = chars_of(name.as_str());
        let mut p: usize = 0;
        while p < self.entries.len() && comes_before(self.entries[p].0.as_str(), &key)
            invariant
                p <= self.entries.len(),
                self.entries == old(self).entries,
                key@ == name@,
                rank(self@, name@, 0) == rank(self@, name@, p as int),
            decreases self.entries.len() - p,
        {
            assert(self@[p as int].0 == self.entries@[p as int].0@);
            p += 1;
        }
        assert(p < self.entries.len() ==> self@[p as int].0 == self.entries@[p as int].0@);
        proof {
            lemma_inserted_in_order(old(self)@, name@, version@);
        }
        if p < self.entries.len() && str_eq(self.entries[p].0.as_str(), name.as_str()) {
            self.entries[p] = (name, version);
            assert(self@ =~= inserted(old(self)@, name@, version@));
        } else {
            self.entries.insert(p, (name, version));
            assert(self@ =~= inserted(old(self)@, name@, version@));
        }
    }
}

/// The configuration while it is read: the section that the lines belong
/// to, and what has been found so far.
pub struct Reading {
    pub section: Seq<char>,
    pub package: PackageModel,
    pub dependencies: Seq<(Seq<char>, Seq<char>)>,
    pub classpath: Seq<Seq<char>>,
    pub minecraft: MinecraftModel,
    pub saw_minecraft: bool,
}

/// A configuration error with the given message.
pub open spec fn toml_error(message: Seq<char>) -> ErrorModel {
    ErrorModel { kind: ErrorKind::Toml, message }
}

/// A value without the white space and the double quotes around it.
pub open spec fn unquoted(value: Seq<char>) -> Seq<char> {
    stripped(stripped(value, Strip::White), Strip::Quotes)
}

/// Whether a text is written between double quotes.
pub open spec fn is_quoted(value: Seq<char>) -> bool {
    value.len() > 0 && value[0] == '"' && value.last() == '"'
}

/// The entries of a list behind those in `acc`, each of which has to be
/// written between double quotes; the first that is not gives the error.
pub open spec fn quoted_items(items: Seq<Seq<char>>, acc: Seq<Seq<char>>) -> Result<
    Seq<Seq<char>>,
    ErrorModel,
>
    decreases items.len(),
{
    if items.len() == 0 {
        Ok(acc)
    } else if is_quoted(stripped(items[0], Strip::White)) {
        quoted_items(items.drop_first(), acc.push(unquoted(items[0])))
    } else {
        Err(
            toml_error(
                "classpath entries must be quoted strings, found: "@ + stripped(
                    items[0],
                    Strip::White,
                ),
            ),
        )
    }
}

/// The texts of a list written between square brackets with commas
/// between its entries.
pub open spec fn string_array(raw: Seq<char>) -> Result<Seq<Seq<char>>, ErrorModel> {
    let list = stripped(raw, Strip::White);
    if !(list.len() > 0 && list[0] == '[' && list.last() == ']') {
        Err(toml_error("expected TOML string array, found: "@ + raw))
    } else if stripped(list.subrange(1, list.len() - 1), Strip::White).len() == 0 {
        Ok(Seq::empty())
    } else {
        quoted_items(pieces(list.subrange(1, list.len() - 1), ','), Seq::empty())
    }
}

/// A package with the value of one of its keys set.
pub open spec fn set_package(p: PackageModel, key: Seq<char>, value: Seq<char>) -> PackageModel {
    if key == "name"@ {
        PackageModel { name: value, ..p }
    } else if key == "version"@ {
        PackageModel { version: value, ..p }
    } else if key == "main"@ {
        PackageModel { main: value, ..p }
    } else if key == "edition"@ {
        PackageModel { edition: value, ..p }
    } else {
        p
    }
}

/// A plugin with the value of one of its keys set.
pub open spec fn set_minecraft(m: MinecraftModel, key: Seq<char>, value: Seq<char>) -> MinecraftModel {
    if key == "plugin_name"@ {
        MinecraftModel { plugin_name: value, ..m }
    } else if key == "plugin_version"@ {
        MinecraftModel { plugin_version: value, ..m }
    } else if key == "main_class"@ {
        MinecraftModel { main_class: value, ..m }
    } else if key == "api"@ {
        MinecraftModel { api: value, ..m }
    } else {
        m
    }
}

/// What a key and its value add to what has been read, which depends on
/// the section they stand in. Keys and sections without a meaning are
/// passed over.
pub open spec fn assigned(st: Reading, key: Seq<char>, value: Seq<char>) -> Result<
    Reading,
    ErrorModel,
> {
    if st.section == "package"@ {
        Ok(Reading { package: set_package(st.package, key, unquoted(value)), ..st })
    } else if st.section == "dependencies"@ {
        Ok(Reading { dependencies: inserted(st.dependencies, key, unquoted(value)), ..st })
    } else if st.section == "java"@ {
        if key == "classpath"@ {
            match string_array(value) {
                Ok(classpath) => Ok(Reading { classpath, ..st }),
                Err(e) => Err(e),
            }
        } else {
            Ok(st)
        }
    } else if st.section == "minecraft"@ {
        Ok(Reading { minecraft: set_minecraft(st.minecraft, key, unquoted(value)), ..st })
    } else {
        Ok(st)
    }
}

/// What a line adds to what has been read. An empty line and a line that
/// starts with `#` add nothing; a line between square brackets opens a
/// section; every other line holds a key, an equals sign and a value.
pub open spec fn read_line(st: Reading, raw: Seq<char>) -> Result<Reading, ErrorModel> {
    let line = stripped(raw, Strip::White);
    if line.len() == 0 || line[0] == '#' {
        Ok(st)
    } else if line[0] == '[' && line.last() == ']' {
        Ok(
            Reading {
                section: stripped(line, Strip::Brackets),
                saw_minecraft: st.saw_minecraft || stripped(line, Strip::Brackets) == "minecraft"@,
                ..st
            },
        )
    } else if position(line, '=', 0) >= line.len() {
        Err(toml_error("invalid line: "@ + line))
    } else {
        assigned(
            st,
            stripped(line.take(position(line, '=', 0)), Strip::White),
            stripped(line.skip(position(line, '=', 0) + 1), Strip::White),
        )
    }
}

/// What the lines add to what has been read, one after the other.
pub open spec fn read_lines(st: Reading, lines: Seq<Seq<char>>) -> Result<Reading, ErrorModel>
    decreases lines.len(),
{
    if lines.len() == 0 {
        Ok(st)
    } else {
        match read_line(st, lines[0]) {
            Ok(next) => read_lines(next, lines.drop_first()),
            Err(e) => Err(e),
        }
    }
}

/// Nothing read yet.
pub open spec fn blank() -> Reading {
    Reading {
        section: Seq::empty(),
        package: PackageModel {
            name: Seq::empty(),
            version: Seq::empty(),
            main: Seq::empty(),
            edition: Seq::empty(),
        },
        dependencies: Seq::empty(),
        classpath: Seq::empty(),
        minecraft: MinecraftModel {
            plugin_name: Seq::empty(),
            plugin_version: Seq::empty(),
            main_class: Seq::empty(),
            api: Seq::empty(),
        },
        saw_minecraft: false,
    }
}

/// The configuration that was read. A package needs a name, a version and
/// a main file. A plugin takes its name and version from the package where
/// it gives none, and needs a main class and an API.
pub open spec fn finished(st: Reading) -> Result<ConfigModel, ErrorModel> {
    if st.package.name.len() == 0 || st.package.version.len() == 0 || st.package.main.len() == 0 {
        Err(toml_error("missing required [package] keys"@))
    } else if !st.saw_minecraft {
        Ok(
            ConfigModel {
                package: st.package,
                dependencies: st.dependencies,
                classpath: st.classpath,
                minecraft: None,
            },
        )
    } else if st.minecraft.main_class.len() == 0 || st.minecraft.api.len() == 0 {
        Err(
            toml_error(
                "[minecraft] requires main_class and api (paper|spigot api version string)"@,
            ),
        )
    } else {
        Ok(
            ConfigModel {
                package: st.package,
                dependencies: st.dependencies,
                classpath: st.classpath,
                minecraft: Some(
                    MinecraftModel {
                        plugin_name: if st.minecraft.plugin_name.len() == 0 {
                            st.package.name
                        } else {
                            st.minecraft.plugin_name
                        },
                        plugin_version: if st.minecraft.plugin_version.len() == 0 {
                            st.package.version
                        } else {
                            st.minecraft.plugin_version
                        },
                        main_class: st.minecraft.main_class,
                        api: st.minecraft.api,
                    },
                ),
            },
        )
    }
}

/// The configuration that a text holds.
pub open spec fn config_of(content: Seq<char>) -> Result<ConfigModel, ErrorModel> {
    match read_lines(blank(), pieces(content, '\n')) {
        Ok(st) => finished(st),
        Err(e) => Err(e),
    }
}

/// The text that the characters make up.
fn text_of(v: &Vec<char>) -> (s: String)
    ensures
        s@ == v@,
{
    let s = string_of(v, 0, v.len());
    assert(v@.subrange(0, v.len() as int) =~= v@);
    s
}

/// The characters without the white space and the double quotes around
/// them.
fn unquote(v: &Vec<char>) -> (r: Vec<char>)
    ensures
        r@ == unquoted(v@),
{
    let inner = strip(v, Strip::White);
    strip(&inner, Strip::Quotes)
}

/// `label` and then the characters of `found`.
fn complaint(label: &str, found: &Vec<char>) -> (e: KujavError)
    ensures
        e@ == toml_error(label@ + found@),
{
    let mut message = String::from_str(label);
    let tail = text_of(found);
    message.append(tail.as_str());
    KujavError::Toml(message)
}

/// A value without the white space and the double quotes around it.
pub fn trim_quoted(value: &str) -> (s: String)
    ensures
        s@ == unquoted(value@),
{
    let v = chars_of(value);
    let inner = unquote(&v);
    text_of(&inner)
}

fn quoted(v: &Vec<char>) -> (r: bool)
    ensures
        r == is_quoted(v@),
{
    v.len() > 0 && v[0] == '"' && v[v.len() - 1] == '"'
}

fn string_array_of(raw: &Vec<char>) -> (r: Result<Vec<String>, KujavError>)
    ensures
        match r {
            Ok(items) => string_array(raw@) == Ok::<Seq<Seq<char>>, ErrorModel>(
                texts_model(items@),
            ),
            Err(e) => string_array(raw@) == Err::<Seq<Seq<char>>, ErrorModel>(e@),
        },
{
    let list = strip(raw, Strip::White);
    if !(list.len() > 0 && list[0] == '[' && list[list.len() - 1] == ']') {
        return Err(complaint("expected TOML string array, found: ", raw));
    }
    let inner = slice_of(&list, 1, list.len() - 1);
    let mut items: Vec<String> = Vec::new();
    assert(texts_model(items@) =~= Seq::<Seq<char>>::empty());
    if strip(&inner, Strip::White).len() == 0 {
        return Ok(items);
    }
    let parts = split(&inner, ',');
    let ghost all = pieces_model(parts@);
    let mut i: usize = 0;
    assert(all.skip(0) =~= all);
    while i < parts.len()
        invariant
            i <= parts.len(),
            all == pieces_model(parts@),
            string_array(raw@) == quoted_items(all, Seq::empty()),
            quoted_items(all, Seq::empty()) == quoted_items(all.skip(i as int), texts_model(items@)),
        decreases parts.len() - i,
    {
        assert(all.skip(i as int)[0] == parts@[i as int]@);
        assert(all.skip(i as int).drop_first() =~= all.skip(i as int + 1));
        let value = strip(&parts[i], Strip::White);
        if !quoted(&value) {
            return Err(complaint("classpath entries must be quoted strings, found: ", &value));
        }
        let ghost before = texts_model(items@);
        let item = text_of(&unquote(&parts[i]));
        items.push(item);
        assert(texts_model(items@) =~= before.push(unquoted(parts@[i as int]@)));
        i += 1;
    }
    Ok(items)
}

/// The texts of a list written between square brackets, each of them
/// between double quotes, with commas between them.
pub fn parse_toml_string_array(raw: &str) -> (r: Result<Vec<String>, KujavError>)
    ensures
        match r {
            Ok(items) => string_array(raw@) == Ok::<Seq<Seq<char>>, ErrorModel>(
                texts_model(items@),
            ),
            Err(e) => string_array(raw@) == Err::<Seq<Seq<char>>, ErrorModel>(e@),
        },
{
    let v = chars_of(raw);
    string_array_of(&v)
}

/// The configuration while it is read.
struct Reader {
    section: String,
    package: Package,
    dependencies: Dependencies,
    classpath: Vec<String>,
    minecraft: MinecraftConfig,
    saw_minecraft: bool,
}

spec fn reading(r: Reader) -> Reading {
    Reading {
        section: r.section@,
        package: r.package@,
        dependencies: r.dependencies@,
        classpath: texts_model(r.classpath@),
        minecraft: r.minecraft@,
        saw_minecraft: r.saw_minecraft,
    }
}

fn start() -> (r: Reader)
    ensures
        reading(r) == blank(),
        r.dependencies.wf(),
{
    let r = Reader {
        section: String::new(),
        package: Package {
            name: String::new(),
            version: String::new(),
            main: String::new(),
            edition: String::new(),
        },
        dependencies: Dependencies::new(),
        classpath: Vec::new(),
        minecraft: MinecraftConfig {
            plugin_name: String::new(),
            plugin_version: String::new(),
            main_class: String::new(),
            api: String::new(),
        },
        saw_minecraft: false,
    };
    assert(texts_model(r.classpath@) =~= Seq::<Seq<char>>::empty());
    r
}

fn assign_package(p: Package, key: &str, value: String) -> (r: Package)
    ensures
        r@ == set_package(p@, key@, value@),
{
    let mut p = p;
    if str_eq(key, "name") {
        p.name = value;
    } else if str_eq(key, "version") {
        p.version = value;
    } else if str_eq(key, "main") {
        p.main = value;
    } else if str_eq(key, "edition") {
        p.edition = value;
    }
    p
}

fn assign_minecraft(m: MinecraftConfig, key: &str, value: String) -> (r: MinecraftConfig)
    ensures
        r@ == set_minecraft(m@, key@, value@),
{
    let mut m = m;
    if str_eq(key, "plugin_name") {
        m.plugin_name = value;
    } else if str_eq(key, "plugin_version") {
        m.plugin_version = value;
    } else if str_eq(key, "main_class") {
        m.main_class = value;
    } else if str_eq(key, "api") {
        m.api = value;
    }
    m
}

fn assign(st: Reader, key: &Vec<char>, value: &Vec<char>) -> (r: Result<Reader, KujavError>)
    requires
        st.dependencies.wf(),
    ensures
        match r {
            Ok(next) => assigned(reading(st), key@, value@) == Ok::<Reading, ErrorModel>(
                reading(next),
            ) && next.dependencies.wf(),
            Err(e) => assigned(reading(st), key@, value@) == Err::<Reading, ErrorModel>(e@),
        },
{
    let mut st = st;
    let name = text_of(key);
    if str_eq(st.section.as_str(), "package") {
        st.package = assign_package(st.package, name.as_str(), text_of(&unquote(value)));
    } else if str_eq(st.section.as_str(), "dependencies") {
        st.dependencies.insert(name, text_of(&unquote(value)));
    } else if str_eq(st.section.as_str(), "java") {
        if str_eq(name.as_str(), "classpath") {
            st.classpath = string_array_of(value)?;
        }
    } else if str_eq(st.section.as_str(), "minecraft") {
        st.minecraft = assign_minecraft(st.minecraft, name.as_str(), text_of(&unquote(value)));
    }
    Ok(st)
}

fn next_line(st: Reader, raw: &Vec<char>) -> (r: Result<Reader, KujavError>)
    requires
        st.dependencies.wf(),
    ensures
        match r {
            Ok(next) => read_line(reading(st), raw@) == Ok::<Reading, ErrorModel>(reading(next))
                && next.dependencies.wf(),
            Err(e) => read_line(reading(st), raw@) == Err::<Reading, ErrorModel>(e@),
        },
{
    let line = strip(raw, Strip::White);
    if line.len() == 0 || line[0] == '#' {
        return Ok(st);
    }
    if line[0] == '[' && line[line.len() - 1] == ']' {
        let mut st = st;
        st.section = text_of(&strip(&line, Strip::Brackets));
        if str_eq(st.section.as_str(), "minecraft") {
            st.saw_minecraft = true;
        }
        return Ok(st);
    }
    let at = find(&line, '=', 0);
    if at >= line.len() {
        return Err(complaint("invalid line: ", &line));
    }
    let key = strip(&slice_of(&line, 0, at), Strip::White);
    let value = strip(&slice_of(&line, at + 1, line.len()), Strip::White);
    assert(line@.subrange(0, at as int) =~= line@.take(at as int));
    assert(line@.subrange(at as int + 1, line.len() as int) =~= line@.skip(at as int + 1));
    assign(st, &key, &value)
}

fn finish(st: Reader) -> (r: Result<KujavToml, KujavError>)
    ensures
        match r {
            Ok(cfg) => finished(reading(st)) == Ok::<ConfigModel, ErrorModel>(cfg@),
            Err(e) => finished(reading(st)) == Err::<ConfigModel, ErrorModel>(e@),
        },
{
    let st = st;
    if st.package.name.as_str().unicode_len() == 0 || st.package.version.as_str().unicode_len()
        == 0 || st.package.main.as_str().unicode_len() == 0 {
        return Err(KujavError::toml("missing required [package] keys"));
    }
    if !st.saw_minecraft {
        return Ok(
            KujavToml {
                package: st.package,
                dependencies: st.dependencies,
                java: JavaConfig { classpath: st.classpath },
                minecraft: None,
            },
        );
    }
    let mut minecraft = st.minecraft;
    if minecraft.main_class.as_str().unicode_len() == 0 || minecraft.api.as_str().unicode_len()
        == 0 {
        return Err(
            KujavError::toml(
                "[minecraft] requires main_class and api (paper|spigot api version string)",
            ),
        );
    }
    if minecraft.plugin_name.as_str().unicode_len() == 0 {
        minecraft.plugin_name = st.package.name.clone();
    }
    if minecraft.plugin_version.as_str().unicode_len() == 0 {
        minecraft.plugin_version = st.package.version.clone();
    }
    Ok(
        KujavToml {
            package: st.package,
            dependencies: st.dependencies,
            java: JavaConfig { classpath: st.classpath },
            minecraft: Some(minecraft),
        },
    )
}

impl KujavToml {
    /// The configuration that the text of a configuration file holds.
    pub fn parse(content: &str) -> (r: Result<KujavToml, KujavError>)
        ensures
            match r {
                Ok(cfg) => config_of(content@) == Ok::<ConfigModel, ErrorModel>(cfg@),
                Err(e) => config_of(content@) == Err::<ConfigModel, ErrorModel>(e@),
            },
    {
        let text = chars_of(content);
        let lines = split(&text, '\n');
        let ghost all = pieces_model(lines@);
        let mut st = start();
        let mut i: usize = 0;
        assert(all.skip(0) =~= all);
        while i < lines.len()
            invariant
                i <= lines.len(),
                all == pieces_model(lines@),
                all == pieces(content@, '\n'),
                st.dependencies.wf(),
                read_lines(blank(), all) == read_lines(reading(st), all.skip(i as int)),
            decreases lines.len() - i,
        {
            assert(all.skip(i as int)[0] == lines@[i as int]@);
            assert(all.skip(i as int).drop_first() =~= all.skip(i as int + 1));
            st = next_line(st, &lines[i])?;
            i += 1;
        }
        finish(st)
    }
}

} // verus!
