use super::executor::ExtensionExecutor;
use crate::text::{ends_with_str, has_prefix, has_suffix, starts_with_str, str_eq, string_views};
use crate::server::pair_views;
use std::path::PathBuf;
use vstd::prelude::*;

verus! {

/// Declares `std::path::PathBuf`, which the library carries without looking inside.
#[verifier::external_type_specification]
#[verifier::external_body]
pub struct ExPathBuf(PathBuf);

/// Where an extension parameter is taken from in a request.
#[derive(Debug, Clone, Copy, PartialEq, Eq, Structural)]
pub enum ParameterSource {
    Body,
    Header,
    Query,
    Path,
}

/// How an array parameter is passed on the command line.
#[derive(Debug, Clone, Copy, PartialEq, Eq, Structural)]
pub enum ArrayStyle {
    /// `--param value1 --param value2`
    Repeated,
    /// `--param value1 value2`
    Variadic,
    /// `--param value1,value2`
    Concatenated,
}

/// One parameter of an extension route.
pub struct ParameterConfig {
    pub name: String,
    pub param_type: String,
    pub required: bool,
    pub description: Option<String>,
    pub source: ParameterSource,
    pub array_style: Option<ArrayStyle>,
}

impl ParameterConfig {
    /// Whether the parameter's type is an array type: it begins with `array` or
    /// ends with `[]`.
    pub fn is_array_type(&self) -> (r: bool)
        ensures
            r == (has_prefix(self.param_type@, "array"@) || has_suffix(self.param_type@, "[]"@)),
    {
        starts_with_str(self.param_type.as_str(), "array") || ends_with_str(
            self.param_type.as_str(),
            "[]",
        )
    }
}

/// One HTTP route that an extension serves.
pub struct RouteConfig {
    pub path: String,
    pub method: String,
    pub command: String,
    pub description: Option<String>,
    pub parameters: Option<Vec<ParameterConfig>>,
}

/// The `package.json` of an extension.
pub struct PackageJson {
    pub name: String,
    pub version: String,
    pub description: Option<String>,
    pub main: String,
    pub bunsan: Option<BunsanConfig>,
}

/// The `bunsan` section of an extension's `package.json`.
pub struct BunsanConfig {
    pub binary_name: Option<String>,
    pub routes: Option<Vec<RouteConfig>>,
}

/// The value of an optional string.
pub open spec fn opt_str_view(s: Option<String>) -> Option<Seq<char>> {
    match s {
        Some(x) => Some(x@),
        None => None,
    }
}

/// The mathematical value of a parameter.
pub struct ParameterView {
    pub name: Seq<char>,
    pub param_type: Seq<char>,
    pub required: bool,
    pub description: Option<Seq<char>>,
    pub source: ParameterSource,
    pub array_style: Option<ArrayStyle>,
}

/// The mathematical value of a route.
pub struct RouteView {
    pub path: Seq<char>,
    pub method: Seq<char>,
    pub command: Seq<char>,
    pub description: Option<Seq<char>>,
    pub parameters: Option<Seq<ParameterView>>,
}

/// The value of a parameter.
pub open spec fn parameter_view(p: ParameterConfig) -> ParameterView {
    ParameterView {
        name: p.name@,
        param_type: p.param_type@,
        required: p.required,
        description: opt_str_view(p.description),
        source: p.source,
        array_style: p.array_style,
    }
}

/// The value of a route.
pub open spec fn route_view(r: RouteConfig) -> RouteView {
    RouteView {
        path: r.path@,
        method: r.method@,
        command: r.command@,
        description: opt_str_view(r.description),
        parameters: match r.parameters {
            Some(ps) => Some(ps@.map_values(|p: ParameterConfig| parameter_view(p))),
            None => None,
        },
    }
}

/// The values of a list of routes.
pub open spec fn routes_view(rs: Seq<RouteConfig>) -> Seq<RouteView> {
    rs.map_values(|r: RouteConfig| route_view(r))
}

fn copy_opt_string(s: &Option<String>) -> (r: Option<String>)
    ensures
        opt_str_view(r) == opt_str_view(*s),
{
    match s {
        Some(x) => Some(x.clone()),
        None => None,
    }
}

/// A copy of a parameter.
pub fn copy_parameter(p: &ParameterConfig) -> (r: ParameterConfig)
    ensures
        parameter_view(r) == parameter_view(*p),
{
    ParameterConfig {
        name: p.name.clone(),
        param_type: p.param_type.clone(),
        required: p.required,
        description: copy_opt_string(&p.description),
        source: p.source,
        array_style: p.array_style,
    }
}

/// A copy of a route.
pub fn copy_route(r: &RouteConfig) -> (out: RouteConfig)
    ensures
        route_view(out) == route_view(*r),
{
    let parameters = match &r.parameters {
        Some(ps) => {
            let mut v: Vec<ParameterConfig> = Vec::new();
            let mut i: usize = 0;
            while i < ps.len()
                invariant
                    i <= ps@.len(),
                    v@.len() == i,
                    forall|k: int|
                        0 <= k < i ==> #[trigger] parameter_view(v@[k]) == parameter_view(ps@[k]),
                decreases ps@.len() - i,
            {
                v.push(copy_parameter(&ps[i]));
                i = i + 1;
            }
            assert(v@.map_values(|p: ParameterConfig| parameter_view(p)) =~= ps@.map_values(
                |p: ParameterConfig| parameter_view(p),
            ));
            Some(v)
        },
        None => None,
    };
    RouteConfig {
        path: r.path.clone(),
        method: r.method.clone(),
        command: r.command.clone(),
        description: copy_opt_string(&r.description),
        parameters,
    }
}

/// A copy of a list of routes.
pub fn copy_routes(rs: &Vec<RouteConfig>) -> (out: Vec<RouteConfig>)
    ensures
        routes_view(out@) == routes_view(rs@),
{
    let mut v: Vec<RouteConfig> = Vec::new();
    let mut i: usize = 0;
    while i < rs.len()
        invariant
            i <= rs@.len(),
            v@.len() == i,
            forall|k: int| 0 <= k < i ==> #[trigger] route_view(v@[k]) == route_view(rs@[k]),
        decreases rs@.len() - i,
    {
        v.push(copy_route(&rs[i]));
        i = i + 1;
    }
    assert(routes_view(v@) =~= routes_view(rs@));
    v
}

/// The routes of each extension, by name: a later entry for a name wins.
pub open spec fn table_map(s: Seq<(String, Vec<RouteConfig>)>) -> Map<Seq<char>, Seq<RouteView>>
    decreases s.len(),
{
    if s.len() == 0 {
        Map::empty()
    } else {
        table_map(s.drop_last()).insert(s.last().0@, routes_view(s.last().1@))
    }
}

/// No extension name occurs twice.
pub open spec fn names_unique(s: Seq<(String, Vec<RouteConfig>)>) -> bool {
    forall|i: int, j: int| 0 <= i < j < s.len() ==> (#[trigger] s[i]).0@ != (#[trigger] s[j]).0@
}

/// With distinct names, the table maps exactly the names it holds, each to its routes.
pub proof fn lemma_table_map(s: Seq<(String, Vec<RouteConfig>)>)
    requires
        names_unique(s),
    ensures
        forall|k: Seq<char>| #[trigger] table_map(s).contains_key(k) <==> exists|i: int| 0 <= i < s.len() && (#[trigger] s[i]).0@ == k,
        forall|i: int| 0 <= i < s.len() ==> table_map(s)[(#[trigger] s[i]).0@] == routes_view(s[i].1@),
    decreases s.len(),
{
    if s.len() > 0 {
        let p = s.drop_last();
        assert(names_unique(p));
        lemma_table_map(p);
        assert forall|k: Seq<char>| #[trigger] table_map(s).contains_key(k) <==> exists|i: int| 0 <= i < s.len() && (#[trigger] s[i]).0@ == k by {
            if table_map(s).contains_key(k) && k != s.last().0@ {
                assert(table_map(p).contains_key(k));
                let i = choose|i: int| 0 <= i < p.len() && (#[trigger] p[i]).0@ == k;
                assert(s[i] == p[i]);
            }
            if table_map(s).contains_key(k) && k == s.last().0@ {
                assert(s[s.len() - 1].0@ == k);
            }
            if exists|i: int| 0 <= i < s.len() && (#[trigger] s[i]).0@ == k {
                let i = choose|i: int| 0 <= i < s.len() && (#[trigger] s[i]).0@ == k;
                if i < s.len() - 1 {
                    assert(p[i] == s[i]);
                    assert(table_map(p).contains_key(k));
                }
            }
        }
        assert forall|i: int| 0 <= i < s.len() implies table_map(s)[(#[trigger] s[i]).0@] == routes_view(s[i].1@) by {
            if i < s.len() - 1 {
                assert(p[i] == s[i]);
                assert(s[i].0@ != s[s.len() - 1].0@);
            }
        }
    }
}

/// The routes of each installed extension, by extension name.
pub struct RouteTable {
    entries: Vec<(String, Vec<RouteConfig>)>,
}

impl RouteTable {
    #[verifier::type_invariant]
    spec fn inv(self) -> bool {
        names_unique(self.entries@)
    }

    /// The routes of each extension, by name.
    pub closed spec fn view(&self) -> Map<Seq<char>, Seq<RouteView>> {
        table_map(self.entries@)
    }

    /// The extension names, in the order of their first insertion.
    pub closed spec fn names(&self) -> Seq<Seq<char>> {
        self.entries@.map_values(|e: (String, Vec<RouteConfig>)| e.0@)
    }

    /// An empty table.
    pub fn new() -> (r: RouteTable)
        ensures
            r.view() == Map::<Seq<char>, Seq<RouteView>>::empty(),
            r.names().len() == 0,
    {
        RouteTable { entries: Vec::new() }
    }

    /// The number of extensions.
    pub fn len(&self) -> (r: usize)
        ensures
            r == self.names().len(),
            r == self.view().dom().len(),
    {
        proof {
            use_type_invariant(self);
            lemma_table_map(self.entries@);
            self.lemma_names_are_keys();
        }
        self.entries.len()
    }

    /// The names held are the table's keys, each once.
    proof fn lemma_names_are_keys(&self)
        requires
            names_unique(self.entries@),
        ensures
            self.view().dom() == self.names().to_set(),
            self.names().no_duplicates(),
            self.view().dom().finite(),
            self.view().dom().len() == self.names().len(),
    {
        lemma_table_map(self.entries@);
        let names = self.names();
        assert(names.no_duplicates()) by {
            assert forall|i: int, j: int| 0 <= i < names.len() && 0 <= j < names.len() && i != j implies names[i] != names[j] by {
                if i < j {
                    assert(self.entries@[i].0@ != self.entries@[j].0@);
                } else {
                    assert(self.entries@[j].0@ != self.entries@[i].0@);
                }
            }
        }
        assert forall|k: Seq<char>| self.view().dom().contains(k) <==> names.to_set().contains(k) by {
            if self.view().dom().contains(k) {
                let i = choose|i: int| 0 <= i < self.entries@.len() && (#[trigger] self.entries@[i]).0@ == k;
                assert(names[i] == k);
            }
            if names.to_set().contains(k) {
                let i = choose|i: int| 0 <= i < names.len() && names[i] == k;
                assert(self.entries@[i].0@ == k);
            }
        }
        assert(self.view().dom() =~= names.to_set());
        names.unique_seq_to_set();
    }

    /// The name and routes of the `i`-th extension, in the order of first insertion.
    pub fn entry(&self, i: usize) -> (r: (&String, &Vec<RouteConfig>))
        requires
            i < self.names().len(),
        ensures
            r.0@ == self.names()[i as int],
            self.view().contains_key(r.0@),
            routes_view(r.1@) == self.view()[r.0@],
    {
        proof {
            use_type_invariant(self);
            lemma_table_map(self.entries@);
        }
        let e = &self.entries[i];
        (&e.0, &e.1)
    }

    fn position(&self, name: &str) -> (r: Option<usize>)
        ensures
            match r {
                Some(i) => i < self.entries@.len() && self.entries@[i as int].0@ == name@,
                None => forall|i: int| 0 <= i < self.entries@.len() ==> (#[trigger] self.entries@[i]).0@ != name@,
            },
    {
        let mut i: usize = 0;
        while i < self.entries.len()
            invariant
                i <= self.entries@.len(),
                forall|j: int| 0 <= j < i ==> (#[trigger] self.entries@[j]).0@ != name@,
            decreases self.entries@.len() - i,
        {
            if str_eq(self.entries[i].0.as_str(), name) {
                return Some(i);
            }
            i = i + 1;
        }
        None
    }

    /// The routes of the named extension.
    pub fn get(&self, name: &str) -> (r: Option<&Vec<RouteConfig>>)
        ensures
            match r {
                Some(v) => self.view().contains_key(name@) && routes_view(v@) == self.view()[name@],
                None => !self.view().contains_key(name@),
            },
    {
        proof {
            use_type_invariant(self);
            lemma_table_map(self.entries@);
        }
        match self.position(name) {
            Some(i) => Some(&self.entries[i].1),
            None => None,
        }
    }

    /// Sets the routes of the named extension, replacing any it had.
    pub fn insert(&mut self, name: String, routes: Vec<RouteConfig>)
        ensures
            final(self).view() == old(self).view().insert(name@, routes_view(routes@)),
    {
        proof {
            use_type_invariant(&*self);
            lemma_table_map(self.entries@);
        }
        let ghost before = self.entries@;
        let pos = self.position(name.as_str());
        let mut entries: Vec<(String, Vec<RouteConfig>)> = Vec::new();
        std::mem::swap(&mut entries, &mut self.entries);
        match pos {
            Some(i) => {
                let ghost k = name@;
                entries.set(i, (name, routes));
                proof {
                    let after = entries@;
                    assert(names_unique(after)) by {
                        assert forall|a: int, b: int| 0 <= a < b < after.len() implies (#[trigger] after[a]).0@ != (#[trigger] after[b]).0@ by {
                            if a != i && b != i {
                                assert(after[a] == before[a] && after[b] == before[b]);
                            } else if a == i {
                                assert(after[b] == before[b]);
                            } else {
                                assert(after[a] == before[a]);
                            }
                        }
                    }
                    lemma_table_map(after);
                    assert(table_map(after) =~= table_map(before).insert(k, routes_view(after[i as int].1@))) by {
                        assert forall|key: Seq<char>| table_map(after).contains_key(key) <==> table_map(before).insert(k, routes_view(after[i as int].1@)).contains_key(key) by {
                            if table_map(before).contains_key(key) && key != k {
                                let j = choose|j: int| 0 <= j < before.len() && (#[trigger] before[j]).0@ == key;
                                assert(after[j] == before[j]);
                            }
                            if table_map(after).contains_key(key) && key != k {
                                let j = choose|j: int| 0 <= j < after.len() && (#[trigger] after[j]).0@ == key;
                                assert(after[j] == before[j]);
                            }
                        }
                        assert forall|key: Seq<char>| #[trigger] table_map(after).contains_key(key) implies table_map(after)[key] == table_map(before).insert(k, routes_view(after[i as int].1@))[key] by {
                            let j = choose|j: int| 0 <= j < after.len() && (#[trigger] after[j]).0@ == key;
                            if j != i {
                                assert(after[j] == before[j]);
                            }
                        }
                    }
                }
            },
            None => {
                let ghost k = name@;
                let ghost rv = routes_view(routes@);
                entries.push((name, routes));
                proof {
                    let after = entries@;
                    assert(after.drop_last() =~= before);
                    assert(names_unique(after)) by {
                        assert forall|a: int, b: int| 0 <= a < b < after.len() implies (#[trigger] after[a]).0@ != (#[trigger] after[b]).0@ by {
                            if b < after.len() - 1 {
                                assert(after[a] == before[a] && after[b] == before[b]);
                            } else {
                                assert(after[a] == before[a]);
                            }
                        }
                    }
                }
            },
        }
        self.entries = entries;
    }

    /// Drops the named extension; the table is unchanged when it has none of that name.
    pub fn remove(&mut self, name: &str)
        ensures
            final(self).view() == old(self).view().remove(name@),
    {
        proof {
            use_type_invariant(&*self);
            lemma_table_map(self.entries@);
        }
        let ghost before = self.entries@;
        match self.position(name) {
            Some(i) => {
                let mut entries: Vec<(String, Vec<RouteConfig>)> = Vec::new();
        std::mem::swap(&mut entries, &mut self.entries);
                let _ = entries.remove(i);
                proof {
                    let after = entries@;
                    assert(names_unique(after)) by {
                        assert forall|a: int, b: int| 0 <= a < b < after.len() implies (#[trigger] after[a]).0@ != (#[trigger] after[b]).0@ by {
                            if a < i {
                                assert(after[a] == before[a]);
                            } else {
                                assert(after[a] == before[a + 1]);
                            }
                            if b < i {
                                assert(after[b] == before[b]);
                            } else {
                                assert(after[b] == before[b + 1]);
                            }
                        }
                    }
                    lemma_table_map(after);
                    assert(table_map(after) =~= table_map(before).remove(name@)) by {
                        assert forall|key: Seq<char>| table_map(after).contains_key(key) <==> table_map(before).remove(name@).contains_key(key) by {
                            if table_map(after).contains_key(key) {
                                let j = choose|j: int| 0 <= j < after.len() && (#[trigger] after[j]).0@ == key;
                                if j < i {
                                    assert(after[j] == before[j]);
                                    assert(before[j].0@ != before[i as int].0@);
                                } else {
                                    assert(after[j] == before[j + 1]);
                                    assert(before[i as int].0@ != before[j + 1].0@);
                                }
                            }
                            if table_map(before).remove(name@).contains_key(key) {
                                let j = choose|j: int| 0 <= j < before.len() && (#[trigger] before[j]).0@ == key;
                                assert(j != i);
                                if j < i {
                                    assert(after[j] == before[j]);
                                } else {
                                    assert(after[j - 1] == before[j]);
                                }
                            }
                        }
                        assert forall|key: Seq<char>| #[trigger] table_map(after).contains_key(key) implies table_map(after)[key] == table_map(before).remove(name@)[key] by {
                            let j = choose|j: int| 0 <= j < after.len() && (#[trigger] after[j]).0@ == key;
                            if j < i {
                                assert(after[j] == before[j]);
                            } else {
                                assert(after[j] == before[j + 1]);
                            }
                        }
                    }
                }
                self.entries = entries;
            },
            None => {
                assert(table_map(before) =~= table_map(before).remove(name@));
            },
        }
    }
}

/// A route table gives back what was written: after setting an extension's
/// routes, reading them gives those routes; after dropping an extension, it has
/// none; other extensions are untouched by either.
pub proof fn lemma_route_table_reads_back(
    table: Map<Seq<char>, Seq<RouteView>>,
    name: Seq<char>,
    routes: Seq<RouteView>,
    other: Seq<char>,
)
    requires
        other != name,
    ensures
        table.insert(name, routes).contains_key(name),
        table.insert(name, routes)[name] == routes,
        !table.remove(name).contains_key(name),
        table.insert(name, routes).contains_key(other) == table.contains_key(other),
        table.remove(name).contains_key(other) == table.contains_key(other),
        table.contains_key(other) ==> table.insert(name, routes)[other] == table[other]
            && table.remove(name)[other] == table[other],
{
}

/// What registering an extension's `package.json` did.
#[derive(Debug, Clone, Copy, PartialEq, Eq, Structural)]
pub enum RegisterOutcome {
    /// The extension's routes were registered; this many.
    Loaded(usize),
    /// The `bunsan` section defines no routes.
    NoRoutes,
    /// The package has no `bunsan` section.
    NoBunsanConfig,
}

/// The routes a package defines, if it defines any.
pub open spec fn package_routes(p: PackageJson) -> Option<Seq<RouteView>> {
    match p.bunsan {
        Some(b) => match b.routes {
            Some(rs) => Some(routes_view(rs@)),
            None => None,
        },
        None => None,
    }
}

/// The name of the binary an extension ships: the `bunsan.binary_name` of its
/// package when set, else the package name.
pub open spec fn binary_name_spec(p: PackageJson) -> Seq<char> {
    match p.bunsan {
        Some(b) => match b.binary_name {
            Some(n) => n@,
            None => p.name@,
        },
        None => p.name@,
    }
}

/// The name of the binary an extension ships.
pub fn binary_name_of(package: &PackageJson) -> (r: String)
    ensures
        r@ == binary_name_spec(*package),
{
    match &package.bunsan {
        Some(b) => match &b.binary_name {
            Some(n) => n.clone(),
            None => package.name.clone(),
        },
        None => package.name.clone(),
    }
}

/// Keeps track of the installed extensions and their routes.
pub struct ExtensionManager {
    pub config_path: PathBuf,
    routes: RouteTable,
    executor: ExtensionExecutor,
    extensions_path: PathBuf,
}

impl ExtensionManager {
    /// A manager of the extensions installed under `extensions_path` (the
    /// executor's directory), with no routes loaded yet.
    pub fn from_paths(config_path: PathBuf, executor: ExtensionExecutor, extensions_path: PathBuf) -> (r: ExtensionManager)
        ensures
            r.get_all_routes_spec() == Map::<Seq<char>, Seq<RouteView>>::empty(),
            r.config_path_spec() == config_path,
            r.executor_spec() == executor,
            r.extensions_path_spec() == extensions_path,
    {
        ExtensionManager { config_path, routes: RouteTable::new(), executor, extensions_path }
    }

    /// The routes of each loaded extension.
    pub closed spec fn get_all_routes_spec(&self) -> Map<Seq<char>, Seq<RouteView>> {
        self.routes.view()
    }

    /// The configuration file that extension settings are written to.
    pub closed spec fn config_path_spec(&self) -> PathBuf {
        self.config_path
    }

    /// The executor that runs the extensions.
    pub closed spec fn executor_spec(&self) -> ExtensionExecutor {
        self.executor
    }

    /// The directory the extensions are installed in.
    pub closed spec fn extensions_path_spec(&self) -> PathBuf {
        self.extensions_path
    }

    /// The routes of each loaded extension.
    pub fn get_all_routes(&self) -> (r: &RouteTable)
        ensures
            r.view() == self.get_all_routes_spec(),
    {
        &self.routes
    }

    /// The executor that runs the extensions.
    pub fn executor(&self) -> (r: &ExtensionExecutor)
        ensures
            *r == self.executor_spec(),
    {
        &self.executor
    }

    /// The directory the extensions are installed in.
    pub fn extensions_path(&self) -> (r: &PathBuf)
        ensures
            *r == self.extensions_path_spec(),
    {
        &self.extensions_path
    }

    /// Registers the routes that an extension's `package.json` defines, under the
    /// package name, replacing any routes of that name; a package without a
    /// `bunsan` section or without routes leaves the routes as they were.
    pub fn register_package(&mut self, package: &PackageJson) -> (r: RegisterOutcome)
        ensures
            final(self).get_all_routes_spec() == match package_routes(*package) {
                Some(rs) => old(self).get_all_routes_spec().insert(package.name@, rs),
                None => old(self).get_all_routes_spec(),
            },
            final(self).config_path_spec() == old(self).config_path_spec(),
            final(self).executor_spec() == old(self).executor_spec(),
            final(self).extensions_path_spec() == old(self).extensions_path_spec(),
            r == match package.bunsan {
                None => RegisterOutcome::NoBunsanConfig,
                Some(b) => match b.routes {
                    None => RegisterOutcome::NoRoutes,
                    Some(rs) => RegisterOutcome::Loaded(rs@.len() as usize),
                },
            },
    {
        match &package.bunsan {
            None => RegisterOutcome::NoBunsanConfig,
            Some(b) => match &b.routes {
                None => RegisterOutcome::NoRoutes,
                Some(rs) => {
                    let copy = copy_routes(rs);
                    self.routes.insert(package.name.clone(), copy);
                    RegisterOutcome::Loaded(rs.len())
                },
            },
        }
    }

    /// Forgets the routes of an extension.
    pub fn unregister(&mut self, extension_name: &str)
        ensures
            final(self).get_all_routes_spec() == old(self).get_all_routes_spec().remove(extension_name@),
            final(self).config_path_spec() == old(self).config_path_spec(),
            final(self).executor_spec() == old(self).executor_spec(),
            final(self).extensions_path_spec() == old(self).extensions_path_spec(),
    {
        self.routes.remove(extension_name);
    }
}

/// The platforms that installed extensions ship binaries for.
pub open spec fn install_platforms() -> Seq<Seq<char>> {
    seq!["linux-x64"@, "macos-arm64"@, "macos-x64"@]
}

/// The folders, inside an installed extension's directory, whose binary is made
/// executable: the binary name, a hyphen and each platform in turn.
pub fn install_platform_folders(binary_name: &str) -> (r: Vec<String>)
    ensures
        string_views(r@) == install_platforms().map_values(|p: Seq<char>| binary_name@ + "-"@ + p),
{
    let mut out: Vec<String> = Vec::new();
    let prefix = binary_name.to_owned().concat("-");
    out.push(prefix.clone().concat("linux-x64"));
    out.push(prefix.clone().concat("macos-arm64"));
    out.push(prefix.concat("macos-x64"));
    assert(string_views(out@) =~= install_platforms().map_values(
        |p: Seq<char>| binary_name@ + "-"@ + p,
    ));
    out
}

/// How many times cloning the extensions repository is tried.
pub const CLONE_ATTEMPTS: u32 = 3;

/// Seconds to wait between two clone attempts.
pub const CLONE_RETRY_DELAY_SECS: u64 = 5;

/// How one attempt to clone the extensions repository ended.
#[derive(Debug, Clone, PartialEq, Eq)]
pub enum CloneOutcome {
    Cloned,
    /// `git` ran and failed with this error output.
    GitFailed(String),
    /// `git` could not be run: this message.
    CommandFailed(String),
    /// The attempt took too long.
    TimedOut,
}

/// Why cloning the repository failed for good.
#[derive(Debug, Clone, PartialEq, Eq)]
pub enum CloneError {
    GitFailed(String),
    CommandFailed(String),
    TimedOut,
}

/// What to do after a clone attempt.
#[derive(Debug, Clone, PartialEq, Eq)]
pub enum CloneAction {
    /// The repository is cloned.
    Done,
    /// Wait this many seconds and try again.
    RetryAfter(u64),
    /// Give up with this error.
    GiveUp(CloneError),
}

/// The error a failed clone attempt gives up with.
pub open spec fn clone_error_of(outcome: CloneOutcome) -> CloneError {
    match outcome {
        CloneOutcome::GitFailed(e) => CloneError::GitFailed(e),
        CloneOutcome::CommandFailed(e) => CloneError::CommandFailed(e),
        _ => CloneError::TimedOut,
    }
}

/// Decides what follows clone attempt number `attempt` (counted from 1): done on
/// success; on a failure, give up with its error after the last attempt, else
/// retry after the delay.
pub fn after_clone_attempt(attempt: u32, outcome: CloneOutcome) -> (r: CloneAction)
    requires
        1 <= attempt <= CLONE_ATTEMPTS,
    ensures
        outcome == CloneOutcome::Cloned ==> r == CloneAction::Done,
        outcome != CloneOutcome::Cloned ==> r == if attempt == CLONE_ATTEMPTS {
            CloneAction::GiveUp(clone_error_of(outcome))
        } else {
            CloneAction::RetryAfter(CLONE_RETRY_DELAY_SECS)
        },
{
    let error = match outcome {
        CloneOutcome::Cloned => return CloneAction::Done,
        CloneOutcome::GitFailed(e) => CloneError::GitFailed(e),
        CloneOutcome::CommandFailed(e) => CloneError::CommandFailed(e),
        CloneOutcome::TimedOut => CloneError::TimedOut,
    };
    if attempt == CLONE_ATTEMPTS {
        CloneAction::GiveUp(error)
    } else {
        CloneAction::RetryAfter(CLONE_RETRY_DELAY_SECS)
    }
}

/// What `dotenv_parser::parse_dotenv` makes of a `.env` text: its entries, in the
/// order of their keys, or `None` when the text is not valid `.env` syntax.
pub uninterp spec fn dotenv_entries(source: Seq<char>) -> Option<Seq<(Seq<char>, Seq<char>)>>;

/// Calls `dotenv_parser::parse_dotenv`, turning the map it returns into its
/// entries in key order and its error into the error's message. Claimed: the
/// outcome is a function of the text alone, named `dotenv_entries`; the `.env`
/// grammar itself is not written out.
#[verifier::external_body]
fn parse_dotenv_entries(source: &str) -> (r: Result<Vec<(String, String)>, String>)
    ensures
        match r {
            Ok(v) => dotenv_entries(source@) == Some(pair_views(v@)),
            Err(_) => dotenv_entries(source@) is None,
        },
{
    match dotenv_parser::parse_dotenv(source) {
        Ok(map) => Ok(map.into_iter().collect()),
        Err(e) => Err(e.to_string()),
    }
}

/// The settings written to an extension's table in the configuration, in the
/// order they are written (a later setting of a key wins): its name, then every
/// variable of its `.env.example`. Fails with the parser's message when the text
/// is not valid `.env` syntax.
pub fn extension_settings(extension_name: &str, env_example: &str) -> (r: Result<
    Vec<(String, String)>,
    String,
>)
    ensures
        match dotenv_entries(env_example@) {
            Some(entries) => r matches Ok(v) && pair_views(v@) == seq![("name"@, extension_name@)] + entries,
            None => r is Err,
        },
{
    let entries = match parse_dotenv_entries(env_example) {
        Ok(v) => v,
        Err(e) => return Err(e),
    };
    let mut out: Vec<(String, String)> = Vec::new();
    out.push(("name".to_owned(), extension_name.to_owned()));
    let mut i: usize = 0;
    while i < entries.len()
        invariant
            i <= entries@.len(),
            pair_views(out@) == seq![("name"@, extension_name@)] + pair_views(entries@).take(i as int),
        decreases entries@.len() - i,
    {
        let (k, v) = (entries[i].0.clone(), entries[i].1.clone());
        let ghost before = out@;
        out.push((k, v));
        assert(pair_views(out@) =~= pair_views(before).push((k@, v@)));
        assert(pair_views(entries@).take(i + 1) =~= pair_views(entries@).take(i as int).push((k@, v@)));
        i = i + 1;
    }
    assert(pair_views(entries@).take(entries@.len() as int) =~= pair_views(entries@));
    Ok(out)
}

/// What the configuration text becomes when, with `toml_edit`, the table
/// `extensions.<name>` is created where missing and each entry is set in it in
/// turn. When the text is not a TOML document the error holds the parser's
/// message; when `extensions` or `extensions.<name>` is there but is not a
/// table it holds none.
pub uninterp spec fn config_with_entries(
    config: Seq<char>,
    name: Seq<char>,
    entries: Seq<(Seq<char>, Seq<char>)>,
) -> Result<Seq<char>, Option<Seq<char>>>;

/// The mathematical value of an edited configuration or of why it failed.
pub open spec fn edit_view(r: Result<String, Option<String>>) -> Result<Seq<char>, Option<Seq<char>>> {
    match r {
        Ok(t) => Ok(t@),
        Err(Some(m)) => Err(Some(m@)),
        Err(None) => Err(None),
    }
}

/// Parses the configuration as a `toml_edit::DocumentMut`, takes the table
/// `extensions.<name>` (inserting empty tables with `or_insert` where missing),
/// inserts each entry in it as a string value with `Table::insert`, and renders
/// the document with `to_string`. A parse error gives its message; an
/// `extensions` or `extensions.<name>` item that is not a table gives no
/// message. Claimed: the outcome is a function of the three arguments alone,
/// named `config_with_entries`; TOML's grammar and layout are not written out.
#[verifier::external_body]
fn set_extension_table(config: &str, name: &str, entries: &Vec<(String, String)>) -> (r: Result<
    String,
    Option<String>,
>)
    ensures
        edit_view(r) == config_with_entries(config@, name@, pair_views(entries@)),
{
    let mut doc = config.parse::<toml_edit::DocumentMut>().map_err(|e| Some(e.to_string()))?;
    let extensions = doc["extensions"].or_insert(toml_edit::Item::Table(toml_edit::Table::new()));
    let table = extensions.as_table_mut().ok_or(None)?.entry(name).or_insert(toml_edit::Item::Table(toml_edit::Table::new()));
    let table = table.as_table_mut().ok_or(None)?;
    for (key, value) in entries.iter() {
        table.insert(key, toml_edit::value(value.as_str()));
    }
    Ok(doc.to_string())
}

/// What the configuration text becomes when, with `toml_edit`, the entry `name`
/// is removed from the table `extensions` (if that is a table); the parser's
/// message when the text is not a TOML document.
pub uninterp spec fn config_without_extension(config: Seq<char>, name: Seq<char>) -> Result<Seq<char>, Seq<char>>;

/// Parses the configuration as a `toml_edit::DocumentMut`, removes `name` from
/// the `extensions` table with `Table::remove` when that item is a table, and
/// renders the document with `to_string`; a parse error gives its message.
/// Claimed: the outcome is a function of the two arguments alone, named
/// `config_without_extension`.
#[verifier::external_body]
fn drop_extension_table(config: &str, name: &str) -> (r: Result<String, String>)
    ensures
        match r {
            Ok(t) => config_without_extension(config@, name@) == Ok::<Seq<char>, Seq<char>>(t@),
            Err(m) => config_without_extension(config@, name@) == Err::<Seq<char>, Seq<char>>(m@),
        },
{
    let mut doc = config.parse::<toml_edit::DocumentMut>().map_err(|e| e.to_string())?;
    if let Some(extensions) = doc["extensions"].as_table_mut() {
        extensions.remove(name);
    }
    Ok(doc.to_string())
}

/// The start of the message when an extension's `.env.example` cannot be read.
pub open spec fn env_error_prefix() -> Seq<char> {
    "Failed to parse .env file: "@
}

/// The message when `extensions`, or the extension's entry in it, is not a table.
pub open spec fn config_table_error() -> Seq<char> {
    "extensions and its entry for the extension should be tables"@
}

/// The configuration text after an extension is installed: its table
/// `extensions.<name>` holds the extension's name and every variable of its
/// `.env.example` (see `extension_settings`). Fails when the `.env.example` or
/// the configuration cannot be read that way, with the TOML parser's message
/// when the configuration is not a TOML document.
pub fn install_config(config: &str, extension_name: &str, env_example: &str) -> (r: Result<String, String>)
    ensures
        match dotenv_entries(env_example@) {
            None => r matches Err(m) && m@.len() >= env_error_prefix().len()
                && m@.subrange(0, env_error_prefix().len() as int) == env_error_prefix(),
            Some(entries) => match config_with_entries(
                config@,
                extension_name@,
                seq![("name"@, extension_name@)] + entries,
            ) {
                Ok(t) => r matches Ok(s) && s@ == t,
                Err(Some(m)) => r matches Err(e) && e@ == m,
                Err(None) => r matches Err(e) && e@ == config_table_error(),
            },
        },
{
    let settings = match extension_settings(extension_name, env_example) {
        Ok(v) => v,
        Err(e) => {
            let m = "Failed to parse .env file: ".to_owned().concat(e.as_str());
            assert(m@.subrange(0, env_error_prefix().len() as int) =~= env_error_prefix());
            return Err(m);
        },
    };
    match set_extension_table(config, extension_name, &settings) {
        Ok(t) => Ok(t),
        Err(Some(m)) => Err(m),
        Err(None) => Err("extensions and its entry for the extension should be tables".to_owned()),
    }
}

/// The configuration text after an extension is uninstalled: its entry under
/// `extensions` is gone. Fails with the TOML parser's message when the
/// configuration is not a TOML document.
pub fn uninstall_config(config: &str, extension_name: &str) -> (r: Result<String, String>)
    ensures
        match config_without_extension(config@, extension_name@) {
            Ok(t) => r matches Ok(s) && s@ == t,
            Err(m) => r matches Err(e) && e@ == m,
        },
{
    drop_extension_table(config, extension_name)
}

} // verus!
