//! The per-file configuration tree, its mathematical view, and the
//! right-biased merge that folds several files into one bundle.

use vstd::prelude::*;

use crate::assoc::{
    assoc_union_right, assoc_view, assoc_wf, lemma_assoc_view_congruence,
};
use crate::descriptor::{DescriptorSet, DescriptorView};

verus! {

/// The view of an `Option`, taken componentwise.
pub open spec fn opt_view<T: View>(o: Option<T>) -> Option<T::V> {
    match o {
        Some(x) => Some(x@),
        None => None,
    }
}

/// The views of a sequence of strings.
pub open spec fn strs_view(s: Seq<String>) -> Seq<Seq<char>> {
    s.map_values(|x: String| x@)
}

/// A protocol-descriptor annotation: the path of the descriptor file that
/// defines the upstream call a field is served by.
#[derive(Debug)]
pub struct Grpc {
    pub proto_path: String,
}

pub ghost struct GrpcV {
    pub proto_path: Seq<char>,
}

impl View for Grpc {
    type V = GrpcV;

    open spec fn view(&self) -> GrpcV {
        GrpcV { proto_path: self.proto_path@ }
    }
}

impl Clone for Grpc {
    /// Returns an annotation with the same content.
    fn clone(&self) -> (r: Self)
        ensures
            r@ == self@,
    {
        Grpc { proto_path: self.proto_path.clone() }
    }
}

/// The body of a field-level expression.
#[derive(Debug)]
pub enum ExprBody {
    Grpc(Grpc),
    Const(String),
}

pub ghost enum ExprBodyV {
    Grpc(GrpcV),
    Const(Seq<char>),
}

impl View for ExprBody {
    type V = ExprBodyV;

    open spec fn view(&self) -> ExprBodyV {
        match self {
            ExprBody::Grpc(g) => ExprBodyV::Grpc(g@),
            ExprBody::Const(c) => ExprBodyV::Const(c@),
        }
    }
}

impl Clone for ExprBody {
    /// Returns a body with the same content.
    fn clone(&self) -> (r: Self)
        ensures
            r@ == self@,
    {
        match self {
            ExprBody::Grpc(g) => ExprBody::Grpc(g.clone()),
            ExprBody::Const(c) => ExprBody::Const(c.clone()),
        }
    }
}

/// A field-level expression.
#[derive(Debug)]
pub struct Expr {
    pub body: ExprBody,
}

pub ghost struct ExprV {
    pub body: ExprBodyV,
}

impl View for Expr {
    type V = ExprV;

    open spec fn view(&self) -> ExprV {
        ExprV { body: self.body@ }
    }
}

impl Clone for Expr {
    /// Returns an expression with the same content.
    fn clone(&self) -> (r: Self)
        ensures
            r@ == self@,
    {
        Expr { body: self.body.clone() }
    }
}

/// A field of a named type: its result type and, optionally, the descriptor
/// annotation or expression that serves it.
#[derive(Debug)]
pub struct Field {
    pub type_of: String,
    pub grpc: Option<Grpc>,
    pub expr: Option<Expr>,
}

pub ghost struct FieldV {
    pub type_of: Seq<char>,
    pub grpc: Option<GrpcV>,
    pub expr: Option<ExprV>,
}

impl View for Field {
    type V = FieldV;

    open spec fn view(&self) -> FieldV {
        FieldV { type_of: self.type_of@, grpc: opt_view(self.grpc), expr: opt_view(self.expr) }
    }
}

impl Clone for Field {
    /// Returns a field with the same content.
    fn clone(&self) -> (r: Self)
        ensures
            r@ == self@,
    {
        let grpc = match &self.grpc {
            Some(g) => Some(g.clone()),
            None => None,
        };
        let expr = match &self.expr {
            Some(e) => Some(e.clone()),
            None => None,
        };
        Field { type_of: self.type_of.clone(), grpc, expr }
    }
}

/// A named type: a mapping from field name to field definition.
#[derive(Debug)]
pub struct TypeDef {
    pub fields: Vec<(String, Field)>,
}

pub ghost struct TypeDefV {
    pub fields: Map<Seq<char>, FieldV>,
}

impl View for TypeDef {
    type V = TypeDefV;

    open spec fn view(&self) -> TypeDefV {
        TypeDefV { fields: assoc_view(self.fields@) }
    }
}

impl Clone for TypeDef {
    /// Returns a type with the same content.
    fn clone(&self) -> (r: Self)
        ensures
            r@ == self@,
            r.fields@.len() == self.fields@.len(),
            forall|i: int|
                0 <= i < self.fields@.len()
                    ==> (#[trigger] r.fields@[i]).0@ == self.fields@[i].0@
                        && r.fields@[i].1@ == self.fields@[i].1@,
    {
        let mut fields: Vec<(String, Field)> = Vec::new();
        let mut i: usize = 0;
        while i < self.fields.len()
            invariant
                i <= self.fields.len(),
                fields@.len() == i,
                forall|j: int|
                    0 <= j < i
                        ==> (#[trigger] fields@[j]).0@ == self.fields@[j].0@
                            && fields@[j].1@ == self.fields@[j].1@,
            decreases self.fields.len() - i,
        {
            fields.push((self.fields[i].0.clone(), self.fields[i].1.clone()));
            i += 1;
        }
        proof {
            lemma_assoc_view_congruence(fields@, self.fields@);
        }
        TypeDef { fields }
    }
}

/// The options of a request-time script: its source (a reference while
/// external, the code once inlined) and its timeout in milliseconds.
#[derive(Debug)]
pub struct ScriptOptions {
    pub src: String,
    pub timeout: Option<u64>,
}

pub ghost struct ScriptOptionsV {
    pub src: Seq<char>,
    pub timeout: Option<u64>,
}

impl View for ScriptOptions {
    type V = ScriptOptionsV;

    open spec fn view(&self) -> ScriptOptionsV {
        ScriptOptionsV { src: self.src@, timeout: self.timeout }
    }
}

impl Clone for ScriptOptions {
    /// Returns options with the same content.
    fn clone(&self) -> (r: Self)
        ensures
            r@ == self@,
    {
        ScriptOptions { src: self.src.clone(), timeout: self.timeout }
    }
}

/// A request-time script: externally referenced while declared, inline once
/// resolved. Resolution preserves the timeout.
#[derive(Debug)]
pub enum Script {
    Path(ScriptOptions),
    Inline(ScriptOptions),
}

pub ghost enum ScriptV {
    Path(ScriptOptionsV),
    Inline(ScriptOptionsV),
}

impl View for Script {
    type V = ScriptV;

    open spec fn view(&self) -> ScriptV {
        match self {
            Script::Path(o) => ScriptV::Path(o@),
            Script::Inline(o) => ScriptV::Inline(o@),
        }
    }
}

impl Clone for Script {
    /// Returns a script with the same content.
    fn clone(&self) -> (r: Self)
        ensures
            r@ == self@,
    {
        match self {
            Script::Path(o) => Script::Path(o.clone()),
            Script::Inline(o) => Script::Inline(o.clone()),
        }
    }
}

/// Server settings: scalar options and the header-vary list.
#[derive(Debug)]
pub struct Server {
    pub script: Option<Script>,
    pub enable_graphiql: Option<bool>,
    pub hostname: Option<String>,
    pub port: Option<u16>,
    pub vary: Vec<String>,
}

pub ghost struct ServerV {
    pub script: Option<ScriptV>,
    pub enable_graphiql: Option<bool>,
    pub hostname: Option<Seq<char>>,
    pub port: Option<u16>,
    pub vary: Seq<Seq<char>>,
}

impl View for Server {
    type V = ServerV;

    open spec fn view(&self) -> ServerV {
        ServerV {
            script: opt_view(self.script),
            enable_graphiql: self.enable_graphiql,
            hostname: opt_view(self.hostname),
            port: self.port,
            vary: strs_view(self.vary@),
        }
    }
}

/// Returns a vector of strings with the same views.
#[verifier::loop_isolation(false)]
pub(crate) fn clone_strings(v: &Vec<String>) -> (r: Vec<String>)
    ensures
        r@ == v@,
{
    let mut out: Vec<String> = Vec::new();
    let mut i: usize = 0;
    while i < v.len()
        invariant
            i <= v.len(),
            out@ =~= v@.subrange(0, i as int),
        decreases v.len() - i,
    {
        out.push(v[i].clone());
        i += 1;
    }
    proof {
        assert(out@ =~= v@);
    }
    out
}

impl Clone for Server {
    /// Returns settings with the same content.
    fn clone(&self) -> (r: Self)
        ensures
            r@ == self@,
    {
        let script = match &self.script {
            Some(s) => Some(s.clone()),
            None => None,
        };
        let hostname = match &self.hostname {
            Some(h) => Some(h.clone()),
            None => None,
        };
        Server {
            script,
            enable_graphiql: self.enable_graphiql,
            hostname,
            port: self.port,
            vary: clone_strings(&self.vary),
        }
    }
}

/// Upstream and runtime settings.
#[derive(Debug)]
pub struct Upstream {
    pub base_url: Option<String>,
    pub connect_timeout: Option<u64>,
}

pub ghost struct UpstreamV {
    pub base_url: Option<Seq<char>>,
    pub connect_timeout: Option<u64>,
}

impl View for Upstream {
    type V = UpstreamV;

    open spec fn view(&self) -> UpstreamV {
        UpstreamV { base_url: opt_view(self.base_url), connect_timeout: self.connect_timeout }
    }
}

impl Clone for Upstream {
    /// Returns settings with the same content.
    fn clone(&self) -> (r: Self)
        ensures
            r@ == self@,
    {
        let base_url = match &self.base_url {
            Some(u) => Some(u.clone()),
            None => None,
        };
        Upstream { base_url, connect_timeout: self.connect_timeout }
    }
}

/// One parsed configuration document.
#[derive(Debug)]
pub struct Config {
    pub types: Vec<(String, TypeDef)>,
    pub server: Server,
    pub upstream: Upstream,
}

pub ghost struct ConfigV {
    pub types: Map<Seq<char>, TypeDefV>,
    pub server: ServerV,
    pub upstream: UpstreamV,
}

impl View for Config {
    type V = ConfigV;

    open spec fn view(&self) -> ConfigV {
        ConfigV { types: assoc_view(self.types@), server: self.server@, upstream: self.upstream@ }
    }
}

impl Config {
    /// Type names, and the field names within each type, are unambiguous.
    pub open spec fn wf(&self) -> bool {
        &&& assoc_wf(self.types@)
        &&& forall|i: int|
            0 <= i < self.types@.len() ==> assoc_wf((#[trigger] self.types@[i]).1.fields@)
    }
}

impl Clone for Config {
    /// Returns a configuration with the same content; an unambiguous one
    /// stays unambiguous.
    #[verifier::loop_isolation(false)]
    fn clone(&self) -> (r: Self)
        ensures
            r@ == self@,
            self.wf() ==> r.wf(),
    {
        let mut types: Vec<(String, TypeDef)> = Vec::new();
        let mut i: usize = 0;
        while i < self.types.len()
            invariant
                i <= self.types.len(),
                types@.len() == i,
                forall|j: int|
                    0 <= j < i ==> (#[trigger] types@[j]).0@ == self.types@[j].0@
                        && types@[j].1@ == self.types@[j].1@,
                forall|j: int|
                    0 <= j < i ==> assoc_wf((#[trigger] self.types@[j]).1.fields@) ==> assoc_wf(
                        types@[j].1.fields@,
                    ),
            decreases self.types.len() - i,
        {
            let entry = &self.types[i];
            let cloned = entry.1.clone();
            proof {
                if assoc_wf(entry.1.fields@) {
                    assert forall|a: int, b: int| 0 <= a < b < cloned.fields@.len()
                        implies cloned.fields@[a].0@ != cloned.fields@[b].0@ by {
                        assert(cloned.fields@[a].0@ == entry.1.fields@[a].0@);
                        assert(cloned.fields@[b].0@ == entry.1.fields@[b].0@);
                    }
                }
            }
            types.push((entry.0.clone(), cloned));
            i += 1;
        }
        proof {
            lemma_assoc_view_congruence(types@, self.types@);
        }
        Config { types, server: self.server.clone(), upstream: self.upstream.clone() }
    }
}

/// The resolved extension side-data of a configuration.
#[derive(Debug)]
pub struct Extensions {
    pub descriptors: DescriptorSet,
}

pub ghost struct ExtensionsV {
    pub descriptors: Map<Seq<char>, DescriptorView>,
}

impl View for Extensions {
    type V = ExtensionsV;

    open spec fn view(&self) -> ExtensionsV {
        ExtensionsV { descriptors: self.descriptors@ }
    }
}

/// A configuration paired with its resolved extension side-data.
#[derive(Debug)]
pub struct ConfigSet {
    pub config: Config,
    pub extensions: Extensions,
}

pub ghost struct ConfigSetV {
    pub config: ConfigV,
    pub extensions: ExtensionsV,
}

impl View for ConfigSet {
    type V = ConfigSetV;

    open spec fn view(&self) -> ConfigSetV {
        ConfigSetV { config: self.config@, extensions: self.extensions@ }
    }
}

/// The view of a configuration bundle with nothing set.
pub open spec fn empty_config_set_view() -> ConfigSetV {
    ConfigSetV {
        config: ConfigV {
            types: Map::empty(),
            server: ServerV {
                script: None,
                enable_graphiql: None,
                hostname: None,
                port: None,
                vary: Seq::empty(),
            },
            upstream: UpstreamV { base_url: None, connect_timeout: None },
        },
        extensions: ExtensionsV { descriptors: Map::empty() },
    }
}

impl Default for ConfigSet {
    /// Returns the bundle with nothing set.
    fn default() -> (r: ConfigSet)
        ensures
            r@ == empty_config_set_view(),
            r.wf(),
    {
        let r = ConfigSet {
            config: Config {
                types: Vec::new(),
                server: Server {
                    script: None,
                    enable_graphiql: None,
                    hostname: None,
                    port: None,
                    vary: Vec::new(),
                },
                upstream: Upstream { base_url: None, connect_timeout: None },
            },
            extensions: Extensions { descriptors: DescriptorSet::new() },
        };
        proof {
            assert(r@.config.types =~= Map::<Seq<char>, TypeDefV>::empty());
            assert(r@.config.server.vary =~= Seq::<Seq<char>>::empty());
            assert(r@.config.server == empty_config_set_view().config.server);
            assert(r@.config == empty_config_set_view().config);
            assert(r@ == empty_config_set_view());
        }
        r
    }
}

impl ConfigSet {
    /// The descriptor set keeps one entry per identifier.
    pub open spec fn wf(&self) -> bool {
        self.extensions.descriptors.wf()
    }

    /// Wraps a configuration with empty extension side-data.
    pub fn from_config(config: Config) -> (r: ConfigSet)
        ensures
            r.config == config,
            r@.config == config@,
            r@.extensions.descriptors == Map::<Seq<char>, DescriptorView>::empty(),
            r.wf(),
    {
        ConfigSet { config, extensions: Extensions { descriptors: DescriptorSet::new() } }
    }

    /// Returns the type bound to a name, if any.
    pub fn get_type(&self, name: &String) -> (r: Option<&TypeDef>)
        ensures
            match r {
                Some(t) => self@.config.types.dom().contains(name@)
                    && t@ == self@.config.types[name@],
                None => !self@.config.types.dom().contains(name@),
            },
    {
        crate::assoc::assoc_get(&self.config.types, name)
    }
}

// ---------------------------------------------------------------------------
// The right-biased merge.
// ---------------------------------------------------------------------------

/// Right bias on a scalar setting: an explicitly set right value wins,
/// otherwise the left one is retained.
pub open spec fn pick_right_v<T>(a: Option<T>, b: Option<T>) -> Option<T> {
    if b is Some {
        b
    } else {
        a
    }
}

/// Returns `b` if it is set, `a` otherwise.
pub fn pick_right<T>(a: Option<T>, b: Option<T>) -> (r: Option<T>)
    ensures
        r == pick_right_v(a, b),
{
    match b {
        Some(x) => Some(x),
        None => a,
    }
}

/// Removes repeated values, keeping each value's first occurrence position.
pub open spec fn dedup_first(s: Seq<Seq<char>>) -> Seq<Seq<char>>
    decreases s.len(),
{
    if s.len() == 0 {
        s
    } else {
        let d = dedup_first(s.drop_last());
        if d.contains(s.last()) {
            d
        } else {
            d.push(s.last())
        }
    }
}

/// Returns whether a string with this view occurs in the vector.
#[verifier::loop_isolation(false)]
pub fn contains_string(v: &Vec<String>, s: &String) -> (r: bool)
    ensures
        r == strs_view(v@).contains(s@),
{
    let mut i: usize = 0;
    while i < v.len()
        invariant
            i <= v.len(),
            forall|j: int| 0 <= j < i ==> v@[j]@ != s@,
        decreases v.len() - i,
    {
        if v[i] == *s {
            proof {
                assert(strs_view(v@)[i as int] == s@);
            }
            return true;
        }
        i += 1;
    }
    proof {
        if strs_view(v@).contains(s@) {
            let j = choose|j: int| 0 <= j < strs_view(v@).len() && strs_view(v@)[j] == s@;
            assert(v@[j]@ == s@);
        }
    }
    false
}

/// Concatenates two ordering-sensitive lists, de-duplicating while keeping
/// each value's first occurrence position.
#[verifier::loop_isolation(false)]
pub fn dedup_concat(a: Vec<String>, b: Vec<String>) -> (r: Vec<String>)
    ensures
        strs_view(r@) == dedup_first(strs_view(a@) + strs_view(b@)),
{
    let mut all = a;
    let mut b = b;
    let ghost av = all@;
    let ghost bv = b@;
    all.append(&mut b);
    proof {
        assert(strs_view(all@) =~= strs_view(av) + strs_view(bv));
    }
    let mut out: Vec<String> = Vec::new();
    let mut i: usize = 0;
    while i < all.len()
        invariant
            i <= all.len(),
            strs_view(out@) =~= dedup_first(strs_view(all@).subrange(0, i as int)),
        decreases all.len() - i,
    {
        let ghost prefix = strs_view(all@).subrange(0, i as int);
        let ghost step = strs_view(all@).subrange(0, i as int + 1);
        proof {
            assert(step.drop_last() =~= prefix);
            assert(step.last() == all@[i as int]@);
        }
        let dup = contains_string(&out, &all[i]);
        if !dup {
            let ghost outv = strs_view(out@);
            out.push(all[i].clone());
            proof {
                assert(strs_view(out@) =~= outv.push(all@[i as int]@));
            }
        }
        i += 1;
    }
    proof {
        assert(strs_view(all@).subrange(0, all@.len() as int) =~= strs_view(all@));
    }
    out
}

/// The right-biased merge of two server settings.
pub open spec fn merge_server_view(a: ServerV, b: ServerV) -> ServerV {
    ServerV {
        script: pick_right_v(a.script, b.script),
        enable_graphiql: pick_right_v(a.enable_graphiql, b.enable_graphiql),
        hostname: pick_right_v(a.hostname, b.hostname),
        port: pick_right_v(a.port, b.port),
        vary: dedup_first(a.vary + b.vary),
    }
}

/// The right-biased merge of two configurations: scalars by right bias, named
/// collections by key-wise union with whole-entry replacement, lists by
/// de-duplicated concatenation.
pub open spec fn merge_config_view(a: ConfigV, b: ConfigV) -> ConfigV {
    ConfigV {
        types: a.types.union_prefer_right(b.types),
        server: merge_server_view(a.server, b.server),
        upstream: UpstreamV {
            base_url: pick_right_v(a.upstream.base_url, b.upstream.base_url),
            connect_timeout: pick_right_v(a.upstream.connect_timeout, b.upstream.connect_timeout),
        },
    }
}

/// The right-biased merge of two bundles; descriptor sets are unioned
/// key-wise, identifiers shared across files being assumed to name the same
/// descriptor.
pub open spec fn merge_view(a: ConfigSetV, b: ConfigSetV) -> ConfigSetV {
    ConfigSetV {
        config: merge_config_view(a.config, b.config),
        extensions: ExtensionsV {
            descriptors: a.extensions.descriptors.union_prefer_right(b.extensions.descriptors),
        },
    }
}

impl ConfigSet {
    /// Merges another bundle over this one: on any conflict the other
    /// (later-supplied) side wins.
    pub fn merge_right(self, other: ConfigSet) -> (r: ConfigSet)
        ensures
            r@ == merge_view(self@, other@),
            self.wf() && other.wf() ==> r.wf(),
    {
        let ghost at = assoc_view(self.config.types@);
        let ghost bt = assoc_view(other.config.types@);
        let types = assoc_union_right(self.config.types, other.config.types);
        proof {
            assert(assoc_view(types@) =~= at.union_prefer_right(bt));
        }
        let server = Server {
            script: pick_right(self.config.server.script, other.config.server.script),
            enable_graphiql: pick_right(
                self.config.server.enable_graphiql,
                other.config.server.enable_graphiql,
            ),
            hostname: pick_right(self.config.server.hostname, other.config.server.hostname),
            port: pick_right(self.config.server.port, other.config.server.port),
            vary: dedup_concat(self.config.server.vary, other.config.server.vary),
        };
        let upstream = Upstream {
            base_url: pick_right(self.config.upstream.base_url, other.config.upstream.base_url),
            connect_timeout: pick_right(
                self.config.upstream.connect_timeout,
                other.config.upstream.connect_timeout,
            ),
        };
        let ghost ad = self.extensions.descriptors@;
        let ghost bd = other.extensions.descriptors@;
        let descriptors = self.extensions.descriptors.union_right(other.extensions.descriptors);
        proof {
            assert(descriptors@ =~= ad.union_prefer_right(bd));
        }
        ConfigSet {
            config: Config { types, server, upstream },
            extensions: Extensions { descriptors },
        }
    }
}

// ---------------------------------------------------------------------------
// Laws of the merge.
// ---------------------------------------------------------------------------

/// Law: for files with no overlapping type names, the merge's types are the
/// union of both sides' types, with every entry kept whole, independent of
/// the order the files are supplied in.
pub proof fn lemma_merge_disjoint_types_union(a: ConfigSetV, b: ConfigSetV)
    requires
        a.config.types.dom().disjoint(b.config.types.dom()),
    ensures
        merge_view(a, b).config.types.dom() =~= a.config.types.dom() + b.config.types.dom(),
        forall|k: Seq<char>|
            #[trigger] a.config.types.dom().contains(k) ==> merge_view(a, b).config.types[k]
                == a.config.types[k],
        forall|k: Seq<char>|
            #[trigger] b.config.types.dom().contains(k) ==> merge_view(a, b).config.types[k]
                == b.config.types[k],
        merge_view(a, b).config.types == merge_view(b, a).config.types,
{
    assert(merge_view(a, b).config.types =~= merge_view(b, a).config.types);
}

/// Law: a scalar setting supplied by the later file wins; one the later file
/// leaves unset is retained from the earlier file.
pub proof fn lemma_merge_scalar_right_bias(a: ConfigSetV, b: ConfigSetV)
    ensures
        b.config.server.enable_graphiql is Some ==> merge_view(a, b).config.server.enable_graphiql
            == b.config.server.enable_graphiql,
        b.config.server.enable_graphiql is None ==> merge_view(a, b).config.server.enable_graphiql
            == a.config.server.enable_graphiql,
        b.config.server.hostname is Some ==> merge_view(a, b).config.server.hostname
            == b.config.server.hostname,
        b.config.server.hostname is None ==> merge_view(a, b).config.server.hostname
            == a.config.server.hostname,
        b.config.server.port is Some ==> merge_view(a, b).config.server.port
            == b.config.server.port,
        b.config.server.port is None ==> merge_view(a, b).config.server.port
            == a.config.server.port,
        b.config.upstream.base_url is Some ==> merge_view(a, b).config.upstream.base_url
            == b.config.upstream.base_url,
        b.config.upstream.base_url is None ==> merge_view(a, b).config.upstream.base_url
            == a.config.upstream.base_url,
{
}

} // verus!
