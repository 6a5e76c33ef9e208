//! The configuration reader: loads schema documents over the injected
//! transports, resolves their extensions (inline scripts, protocol-descriptor
//! closures), and folds every input into one configuration bundle.

use vstd::prelude::*;

use crate::config::{
    clone_strings, empty_config_set_view, merge_view, strs_view, Config, ConfigSet, ConfigSetV,
    ConfigV, ExprBody, ExprBodyV, Extensions, ExtensionsV, Field, FieldV, Script, ScriptOptions,
    ScriptOptionsV, ScriptV, Server, ServerV,
};
use crate::descriptor::{
    open_well_known, parse_descriptor, DescriptorRecord, DescriptorSet, DescriptorView,
};
use crate::error::ConfigError;
use crate::graph::{
    closed, closure, coherent, imports_of, lemma_reaches_in_closed_set, lemma_reaches_self,
    lemma_reaches_step, lemma_step_ok_in_source_dom, reaches, record_of, source_dom, step_ok,
};
use crate::runtime::{load_of, parse_of, RtModel, TargetRuntime};
use crate::source::Reference;

verus! {

/// Reads the configuration from files or HTTP URLs and resolves all linked
/// extensions to create a `ConfigSet`.
pub struct ConfigReader<R: TargetRuntime> {
    runtime: R,
}

/// What script inlining leaves of a server's script under a model: nothing
/// stays nothing, an inline script is untouched, and an external reference is
/// replaced by the loaded code, keeping the timeout; a reference the snapshot
/// does not hold fails the inlining.
pub open spec fn inline_script(m: RtModel, s: Option<ScriptV>) -> Option<Option<ScriptV>> {
    match s {
        None => Some(None),
        Some(ScriptV::Inline(o)) => Some(Some(ScriptV::Inline(o))),
        Some(ScriptV::Path(o)) => match load_of(m, o.src) {
            Some(code) => Some(Some(ScriptV::Inline(ScriptOptionsV { src: code, timeout: o.timeout }))),
            None => None,
        },
    }
}

/// The descriptor path a field references, if any: declared directly on the
/// field, or nested inside its expression body.
pub open spec fn field_path(f: FieldV) -> Option<Seq<char>> {
    match f.grpc {
        Some(g) => Some(g.proto_path),
        None => match f.expr {
            Some(e) => match e.body {
                ExprBodyV::Grpc(g) => Some(g.proto_path),
                ExprBodyV::Const(_) => None,
            },
            None => None,
        },
    }
}

/// The set of descriptor paths referenced anywhere in the type graph.
pub open spec fn grpc_paths(c: ConfigV) -> Set<Seq<char>> {
    Set::new(
        |p: Seq<char>|
            exists|tn: Seq<char>, fname: Seq<char>|
                {
                    &&& c.types.dom().contains(tn)
                    &&& c.types[tn].fields.dom().contains(fname)
                    &&& field_path(#[trigger] c.types[tn].fields[fname]) == Some(p)
                },
    )
}

/// The union of the transitive import closures of a set of roots, with every
/// identifier bound to the record it denotes: a pure function of the set of
/// distinct paths, independent of any scan order.
pub open spec fn descriptors_view(m: RtModel, roots: Set<Seq<char>>) -> Map<
    Seq<char>,
    DescriptorView,
> {
    Map::new(
        |id: Seq<char>|
            exists|root: Seq<char>| #[trigger] roots.contains(root) && reaches(m, root, id),
        |id: Seq<char>| record_of(m, id),
    )
}

/// Every identifier in any of the roots' closures resolves.
pub open spec fn roots_ok(m: RtModel, roots: Set<Seq<char>>) -> bool {
    forall|root: Seq<char>, id: Seq<char>|
        roots.contains(root) && #[trigger] reaches(m, root, id) ==> step_ok(m, id)
}

/// The identifiers of the closures of the first `n` paths.
pub open spec fn prefix_closures(m: RtModel, paths: Seq<String>, n: int) -> Set<Seq<char>> {
    Set::new(
        |id: Seq<char>| exists|j: int| 0 <= j < n && reaches(m, (#[trigger] paths[j])@, id),
    )
}

/// Whether one parsed configuration resolves under a snapshot: its script
/// reference, if any, loads, and every descriptor closure it references
/// resolves in full.
pub open spec fn resolve_ok(m: RtModel, c: ConfigV) -> bool {
    inline_script(m, c.server.script) is Some && roots_ok(m, grpc_paths(c))
}

/// What resolving one parsed configuration yields: the configuration with its
/// script inlined, extended with the union of the descriptor closures of
/// every referenced path.
pub open spec fn resolve_view(m: RtModel, c: ConfigV) -> ConfigSetV {
    ConfigSetV {
        config: ConfigV {
            types: c.types,
            server: ServerV { script: inline_script(m, c.server.script)->0, ..c.server },
            upstream: c.upstream,
        },
        extensions: ExtensionsV { descriptors: descriptors_view(m, grpc_paths(c)) },
    }
}

/// Whether one input reference makes it through the whole per-file pipeline:
/// load, format detection, parse, and extension resolution.
pub open spec fn per_file_ok(m: RtModel, path: Seq<char>) -> bool {
    &&& load_of(m, path) is Some
    &&& crate::source::detect_spec(path) is Some
    &&& parse_of(m, crate::source::detect_spec(path)->0, load_of(m, path)->0) is Some
    &&& resolve_ok(m, parse_of(m, crate::source::detect_spec(path)->0, load_of(m, path)->0)->0)
}

/// The resolved bundle one input reference contributes.
pub open spec fn per_file_view(m: RtModel, path: Seq<char>) -> ConfigSetV {
    resolve_view(m, parse_of(m, crate::source::detect_spec(path)->0, load_of(m, path)->0)->0)
}

/// The script is still an external reference.
pub open spec fn script_is_external(s: Option<ScriptV>) -> bool {
    s matches Some(ScriptV::Path(_))
}

/// The error of a failed extension resolution names the offending reference:
/// the script source when inlining it failed, otherwise an identifier
/// reachable from one of the configuration's descriptor roots that does not
/// resolve.
pub open spec fn resolve_err_names(m: RtModel, c: ConfigV, e: ConfigError) -> bool {
    if inline_script(m, c.server.script) is None {
        c.server.script matches Some(ScriptV::Path(o)) && e is Io && e.spec_reference() == o.src
    } else {
        &&& exists|root: Seq<char>| #[trigger]
            grpc_paths(c).contains(root) && reaches(m, root, e.spec_reference())
        &&& !step_ok(m, e.spec_reference())
    }
}

/// The error of a failed per-file pipeline names the offending reference:
/// the input itself when its load, format detection or parse fails, and the
/// failing extension reference otherwise.
pub open spec fn file_error_names(m: RtModel, path: Seq<char>, e: ConfigError) -> bool {
    if load_of(m, path) is None {
        e is Io && e.spec_reference() == path
    } else if crate::source::detect_spec(path) is None {
        e is Syntax && e.spec_reference() == path
    } else if parse_of(m, crate::source::detect_spec(path)->0, load_of(m, path)->0) is None {
        e is Syntax && e.spec_reference() == path
    } else {
        resolve_err_names(
            m,
            parse_of(m, crate::source::detect_spec(path)->0, load_of(m, path)->0)->0,
            e,
        )
    }
}

/// Whether every input reference makes it through the pipeline.
pub open spec fn read_all_ok(m: RtModel, files: Seq<Seq<char>>) -> bool {
    forall|i: int| 0 <= i < files.len() ==> per_file_ok(m, #[trigger] files[i])
}

/// The bundle a successful run over the inputs yields: the per-file bundles,
/// folded pairwise in input order by the right-biased merge, starting from
/// the empty accumulator.
pub open spec fn read_all_view(m: RtModel, files: Seq<Seq<char>>) -> ConfigSetV
    decreases files.len(),
{
    if files.len() == 0 {
        empty_config_set_view()
    } else {
        merge_view(read_all_view(m, files.drop_last()), per_file_view(m, files.last()))
    }
}

/// Two configurations with the same types reference the same descriptor
/// paths.
pub proof fn lemma_grpc_paths_types_only(c1: ConfigV, c2: ConfigV)
    requires
        c1.types == c2.types,
    ensures
        grpc_paths(c1) == grpc_paths(c2),
{
    assert forall|p: Seq<char>| #[trigger] grpc_paths(c1).contains(p)
        implies grpc_paths(c2).contains(p) by {
        let (tn, fname): (Seq<char>, Seq<char>) = choose|tn: Seq<char>, fname: Seq<char>|
            {
                &&& c1.types.dom().contains(tn)
                &&& c1.types[tn].fields.dom().contains(fname)
                &&& field_path(#[trigger] c1.types[tn].fields[fname]) == Some(p)
            };
        assert(field_path(c2.types[tn].fields[fname]) == Some(p));
    }
    assert forall|p: Seq<char>| #[trigger] grpc_paths(c2).contains(p)
        implies grpc_paths(c1).contains(p) by {
        let (tn, fname): (Seq<char>, Seq<char>) = choose|tn: Seq<char>, fname: Seq<char>|
            {
                &&& c2.types.dom().contains(tn)
                &&& c2.types[tn].fields.dom().contains(fname)
                &&& field_path(#[trigger] c2.types[tn].fields[fname]) == Some(p)
            };
        assert(field_path(c1.types[tn].fields[fname]) == Some(p));
    }
    assert(grpc_paths(c1) =~= grpc_paths(c2));
}

/// Law: resolution is repeatable — what a successful run over given inputs
/// yields is a function of the snapshot alone, so a retry after a missing
/// file is supplied produces exactly what a run without the failure would
/// have produced.
pub proof fn lemma_read_all_repeatable(
    m: RtModel,
    files: Seq<Seq<char>>,
    r1: ConfigSetV,
    r2: ConfigSetV,
)
    requires
        r1 == read_all_view(m, files),
        r2 == read_all_view(m, files),
    ensures
        r1 == r2,
{
}

/// Law: a scalar setting the later file supplies wins; one it leaves unset is
/// retained from the earlier file. The resolver only rewrites the script, so
/// a file's scalar settings are those of its parsed configuration.
pub proof fn lemma_read_all_scalar_right_bias(m: RtModel, a: Seq<char>, b: Seq<char>)
    ensures
        per_file_view(m, b).config.server.enable_graphiql is Some ==> read_all_view(
            m,
            seq![a, b],
        ).config.server.enable_graphiql == per_file_view(m, b).config.server.enable_graphiql,
        per_file_view(m, b).config.server.enable_graphiql is None ==> read_all_view(
            m,
            seq![a, b],
        ).config.server.enable_graphiql == per_file_view(m, a).config.server.enable_graphiql,
        per_file_view(m, b).config.server.enable_graphiql == parse_of(
            m,
            crate::source::detect_spec(b)->0,
            load_of(m, b)->0,
        )->0.server.enable_graphiql,
{
    let pair = seq![a, b];
    assert(pair.len() == 2 && seq![a].len() == 1);
    assert(pair.drop_last() =~= seq![a]);
    assert(seq![a].drop_last() =~= Seq::<Seq<char>>::empty());
    assert(pair.last() == b && seq![a].last() == a);
    assert(read_all_view(m, Seq::<Seq<char>>::empty()) == empty_config_set_view());
    assert(read_all_view(m, seq![a]) == merge_view(
        empty_config_set_view(),
        per_file_view(m, a),
    ));
    assert(read_all_view(m, pair) == merge_view(
        read_all_view(m, seq![a]),
        per_file_view(m, b),
    ));
}

/// Two distinct input files never define the same type name.
pub open spec fn no_shared_type_names(m: RtModel, files: Seq<Seq<char>>) -> bool {
    forall|i: int, j: int|
        #![trigger files[i], files[j]]
        0 <= i < files.len() && 0 <= j < files.len() && files[i] != files[j]
            ==> per_file_view(m, files[i]).config.types.dom().disjoint(
                per_file_view(m, files[j]).config.types.dom(),
            )
}

/// Law (any number of inputs): when no two files define the same type name,
/// a run's types are the key-wise union of every file's types — a name is
/// present exactly when some file defines it, and it is bound to that file's
/// whole entry, fields included.
pub proof fn lemma_read_all_union_of_types(m: RtModel, files: Seq<Seq<char>>)
    requires
        no_shared_type_names(m, files),
    ensures
        forall|k: Seq<char>| #[trigger]
            read_all_view(m, files).config.types.dom().contains(k) <==> exists|i: int|
                0 <= i < files.len() && per_file_view(
                    m,
                    #[trigger] files[i],
                ).config.types.dom().contains(k),
        forall|i: int, k: Seq<char>|
            #![trigger per_file_view(m, files[i]).config.types[k]]
            0 <= i < files.len() && per_file_view(m, files[i]).config.types.dom().contains(k)
                ==> read_all_view(m, files).config.types[k] == per_file_view(
                m,
                files[i],
            ).config.types[k],
    decreases files.len(),
{
    if files.len() > 0 {
        let pre = files.drop_last();
        let last = files.last();
        assert(no_shared_type_names(m, pre)) by {
            assert forall|i: int, j: int|
                #![trigger pre[i], pre[j]]
                0 <= i < pre.len() && 0 <= j < pre.len() && pre[i] != pre[j]
                implies per_file_view(m, pre[i]).config.types.dom().disjoint(
                    per_file_view(m, pre[j]).config.types.dom(),
                ) by {
                assert(pre[i] == files[i] && pre[j] == files[j]);
            }
        }
        lemma_read_all_union_of_types(m, pre);
        let folded = read_all_view(m, pre).config.types;
        let lastm = per_file_view(m, last).config.types;
        assert(read_all_view(m, files).config.types == folded.union_prefer_right(lastm));
        assert forall|k: Seq<char>| #[trigger]
            read_all_view(m, files).config.types.dom().contains(k)
            implies exists|i: int|
                0 <= i < files.len() && per_file_view(
                    m,
                    #[trigger] files[i],
                ).config.types.dom().contains(k) by {
            if lastm.dom().contains(k) {
                assert(per_file_view(m, files[files.len() - 1]).config.types.dom().contains(k));
            } else {
                assert(folded.dom().contains(k));
                let i = choose|i: int|
                    0 <= i < pre.len() && per_file_view(
                        m,
                        #[trigger] pre[i],
                    ).config.types.dom().contains(k);
                assert(files[i] == pre[i]);
                assert(per_file_view(m, files[i]).config.types.dom().contains(k));
            }
        }
        assert forall|k: Seq<char>|
            (exists|i: int|
                0 <= i < files.len() && per_file_view(
                    m,
                    #[trigger] files[i],
                ).config.types.dom().contains(k))
            implies #[trigger] read_all_view(m, files).config.types.dom().contains(k) by {
            let i = choose|i: int|
                0 <= i < files.len() && per_file_view(
                    m,
                    #[trigger] files[i],
                ).config.types.dom().contains(k);
            if i == files.len() - 1 {
                assert(lastm.dom().contains(k));
            } else {
                assert(pre[i] == files[i]);
                assert(per_file_view(m, pre[i]).config.types.dom().contains(k));
                assert(folded.dom().contains(k));
            }
        }
        assert forall|i: int, k: Seq<char>|
            #![trigger per_file_view(m, files[i]).config.types[k]]
            0 <= i < files.len() && per_file_view(m, files[i]).config.types.dom().contains(k)
            implies read_all_view(m, files).config.types[k] == per_file_view(
                m,
                files[i],
            ).config.types[k] by {
            if lastm.dom().contains(k) {
                if files[i] == last {
                } else {
                    assert(per_file_view(m, files[i]).config.types.dom().disjoint(lastm.dom()));
                    assert(false);
                }
            } else {
                assert(i < files.len() - 1);
                assert(pre[i] == files[i]);
                assert(per_file_view(m, pre[i]).config.types.dom().contains(k));
                assert(folded[k] == per_file_view(m, pre[i]).config.types[k]);
            }
        }
    }
}

/// Law (any number of inputs): when no two files define the same type name,
/// the merged types are independent of the order the inputs are supplied in
/// — two runs over the same references agree on every type and its fields.
pub proof fn lemma_read_all_types_order_independent(
    m: RtModel,
    files: Seq<Seq<char>>,
    reordered: Seq<Seq<char>>,
)
    requires
        no_shared_type_names(m, files),
        forall|v: Seq<char>| files.contains(v) <==> #[trigger] reordered.contains(v),
    ensures
        read_all_view(m, reordered).config.types == read_all_view(m, files).config.types,
{
    assert(no_shared_type_names(m, reordered)) by {
        assert forall|i: int, j: int|
            #![trigger reordered[i], reordered[j]]
            0 <= i < reordered.len() && 0 <= j < reordered.len() && reordered[i] != reordered[j]
            implies per_file_view(m, reordered[i]).config.types.dom().disjoint(
                per_file_view(m, reordered[j]).config.types.dom(),
            ) by {
            assert(reordered.contains(reordered[i]) && reordered.contains(reordered[j]));
            assert(files.contains(reordered[i]) && files.contains(reordered[j]));
            let a = choose|a: int| 0 <= a < files.len() && files[a] == reordered[i];
            let b = choose|b: int| 0 <= b < files.len() && files[b] == reordered[j];
            assert(files[a] != files[b]);
        }
    }
    lemma_read_all_union_of_types(m, files);
    lemma_read_all_union_of_types(m, reordered);
    let t1 = read_all_view(m, files).config.types;
    let t2 = read_all_view(m, reordered).config.types;
    assert forall|k: Seq<char>| #[trigger] t1.dom().contains(k)
        implies t2.dom().contains(k) && t2[k] == t1[k] by {
        let i = choose|i: int|
            0 <= i < files.len() && per_file_view(
                m,
                #[trigger] files[i],
            ).config.types.dom().contains(k);
        assert(files.contains(files[i]));
        assert(reordered.contains(files[i]));
        let j = choose|j: int| 0 <= j < reordered.len() && reordered[j] == files[i];
        assert(per_file_view(m, reordered[j]).config.types.dom().contains(k));
        assert(t2.dom().contains(k));
        assert(t1[k] == per_file_view(m, files[i]).config.types[k]);
        assert(t2[k] == per_file_view(m, reordered[j]).config.types[k]);
    }
    assert forall|k: Seq<char>| #[trigger] t2.dom().contains(k)
        implies t1.dom().contains(k) by {
        let j = choose|j: int|
            0 <= j < reordered.len() && per_file_view(
                m,
                #[trigger] reordered[j],
            ).config.types.dom().contains(k);
        assert(reordered.contains(reordered[j]));
        assert(files.contains(reordered[j]));
        let a = choose|a: int| 0 <= a < files.len() && files[a] == reordered[j];
        assert(per_file_view(m, files[a]).config.types.dom().contains(k));
    }
    assert(t1 =~= t2);
}

/// An identifier with this view sits in the unprocessed part of the queue.
pub open spec fn pending_contains(queue: Seq<String>, qi: int, id: Seq<char>) -> bool {
    exists|l: int| qi <= l < queue.len() && (#[trigger] queue[l])@ == id
}

impl<R: TargetRuntime> ConfigReader<R> {
    /// The runtime snapshot the reader answers from.
    pub closed spec fn model(&self) -> RtModel {
        self.runtime.model()
    }

    /// How many transport fetches the reader has performed.
    pub closed spec fn io_count(&self) -> nat {
        self.runtime.io_count()
    }

    /// Creates a reader over the injected runtime.
    pub fn init(runtime: R) -> (r: Self)
        ensures
            r.model() == runtime.model(),
            r.io_count() == runtime.io_count(),
    {
        Self { runtime }
    }

    /// Reads one reference: a remote one over the network transport, a local
    /// one over the filesystem transport. Succeeds exactly when the snapshot
    /// holds the reference, and delivers its content.
    fn read_file(&mut self, file: &String) -> (r: Result<String, ConfigError>)
        ensures
            final(self).model() == old(self).model(),
            final(self).io_count() == old(self).io_count() + 1,
            r is Ok <==> load_of(old(self).model(), file@) is Some,
            r is Ok ==> r->Ok_0@ == load_of(old(self).model(), file@)->0,
            r is Err ==> r->Err_0 is Io && r->Err_0.spec_reference() == file@,
    {
        let reference = Reference::classify(file.clone());
        match &reference {
            Reference::Remote(url) => match self.runtime.fetch_url(url) {
                Ok(content) => Ok(content),
                Err(error) => Err(ConfigError::Io { reference: file.clone(), error }),
            },
            Reference::Local(path) => match self.runtime.read_file(path) {
                Ok(content) => Ok(content),
                Err(error) => Err(ConfigError::Io { reference: file.clone(), error }),
            },
        }
    }

    /// Reads every reference, delivering the contents in the callers' order;
    /// the first failure aborts the whole batch, with no partial result.
    #[verifier::loop_isolation(false)]
    fn read_files(&mut self, files: &Vec<String>) -> (r: Result<Vec<String>, ConfigError>)
        ensures
            final(self).model() == old(self).model(),
            r is Ok <==> (forall|i: int|
                0 <= i < files@.len() ==> load_of(old(self).model(), (#[trigger] files@[i])@)
                    is Some),
            r is Ok ==> r->Ok_0@.len() == files@.len() && (forall|i: int|
                0 <= i < files@.len() ==> (#[trigger] r->Ok_0@[i])@ == load_of(
                    old(self).model(),
                    files@[i]@,
                )->0),
            r is Err ==> r->Err_0 is Io && exists|i: int|
                0 <= i < files@.len() && load_of(old(self).model(), (#[trigger] files@[i])@)
                    is None && r->Err_0.spec_reference() == files@[i]@,
    {
        let ghost m = self.model();
        let mut out: Vec<String> = Vec::new();
        let mut i: usize = 0;
        while i < files.len()
            invariant
                self.model() == m,
                i <= files.len(),
                out@.len() == i,
                forall|j: int|
                    0 <= j < i ==> load_of(m, (#[trigger] files@[j])@) is Some && out@[j]@
                        == load_of(m, files@[j]@)->0,
            decreases files.len() - i,
        {
            match self.read_file(&files[i]) {
                Ok(content) => out.push(content),
                Err(e) => {
                    return Err(e);
                },
            }
            i += 1;
        }
        Ok(out)
    }

    /// Reads one protocol-descriptor file: the bundled well-known catalog is
    /// consulted first, and a match is used directly, with no transport
    /// traffic at all; only on a miss is the path loaded and parsed.
    pub fn read_proto(&mut self, path: &String) -> (r: Result<DescriptorRecord, ConfigError>)
        ensures
            final(self).model() == old(self).model(),
            r is Ok <==> step_ok(old(self).model(), path@),
            r is Ok ==> r->Ok_0@ == record_of(old(self).model(), path@),
            r is Err ==> r->Err_0.spec_reference() == path@,
            crate::descriptor::is_well_known(path@) ==> final(self).io_count() == old(
                self,
            ).io_count(),
            final(self).io_count() <= old(self).io_count() + 1,
    {
        match open_well_known(path) {
            Some(record) => Ok(record),
            None => {
                let content = match self.read_file(path) {
                    Ok(content) => content,
                    Err(e) => {
                        return Err(e);
                    },
                };
                match parse_descriptor(path, &content) {
                    Ok(record) => Ok(record),
                    Err(message) => Err(ConfigError::Descriptor { path: path.clone(), message }),
                }
            },
        }
    }

    /// Resolves the transitive import closure of one descriptor path into the
    /// accumulated set: a deduplicated breadth-first traversal over the
    /// import graph, seeded with the root's imports. An identifier already
    /// present is skipped, so a diamond-shaped graph yields exactly one entry
    /// per file; any fetch or parse failure anywhere in the traversal is
    /// fatal and is reported with the offending identifier attached.
    #[verifier::loop_isolation(false)]
    pub fn resolve_descriptors(&mut self, descriptors: DescriptorSet, proto_path: String) -> (r:
        Result<DescriptorSet, ConfigError>)
        requires
            descriptors.wf(),
            coherent(old(self).model(), descriptors@),
            closed(old(self).model(), descriptors@),
        ensures
            final(self).model() == old(self).model(),
            r is Ok ==> r->Ok_0.wf() && coherent(old(self).model(), r->Ok_0@) && closed(
                old(self).model(),
                r->Ok_0@,
            ),
            r is Ok ==> r->Ok_0@.dom() == descriptors@.dom() + closure(
                old(self).model(),
                proto_path@,
            ),
            r is Err ==> reaches(old(self).model(), proto_path@, r->Err_0.spec_reference())
                && !step_ok(old(self).model(), r->Err_0.spec_reference()),
            r is Ok ==> final(self).io_count() <= old(self).io_count() + 1
                + r->Ok_0@.dom().len() - descriptors@.dom().len(),
    {
        let ghost m = self.model();
        let ghost root = proto_path@;
        let ghost d0 = descriptors@;
        let ghost io0 = self.io_count();
        proof {
            descriptors.lemma_dom_finite();
        }
        let root_record = match self.read_proto(&proto_path) {
            Ok(record) => record,
            Err(e) => {
                proof {
                    lemma_reaches_self(m, root);
                }
                return Err(e);
            },
        };
        let mut visited = descriptors;
        let mut queue: Vec<String> = clone_strings(&root_record.imports);
        let mut qi: usize = 0;
        proof {
            assert forall|i: int| 0 <= i < imports_of(m, root).len()
                implies (#[trigger] imports_of(m, root)[i]) == queue@[i]@ by {
                assert(root_record@.imports[i] == root_record.imports@.map_values(
                    |s: String| s@,
                )[i]);
            }
            lemma_reaches_self(m, root);
            assert forall|l: int| 0 <= l < queue@.len()
                implies reaches(m, root, (#[trigger] queue@[l])@) by {
                assert(imports_of(m, root)[l] == queue@[l]@);
                assert(imports_of(m, root).contains(imports_of(m, root)[l]));
                lemma_reaches_step(m, root, root, queue@[l]@);
            }
            self.runtime.model_finite();
            assert(crate::descriptor::well_known_names().finite());
        }
        while qi < queue.len()
            invariant
                self.model() == m,
                source_dom(m).finite(),
                qi <= queue.len(),
                visited.wf(),
                visited@.dom().finite(),
                self.io_count() <= io0 + 1 + visited@.dom().len() - d0.dom().len(),
                coherent(m, visited@),
                forall|k: Seq<char>| #[trigger] d0.dom().contains(k) ==> visited@.dom().contains(k),
                forall|k: Seq<char>| #[trigger]
                    visited@.dom().contains(k) ==> d0.dom().contains(k) || reaches(m, root, k),
                forall|l: int| 0 <= l < queue@.len() ==> reaches(m, root, (#[trigger] queue@[l])@),
                forall|i: int|
                    0 <= i < imports_of(m, root).len() ==> visited@.dom().contains(
                        #[trigger] imports_of(m, root)[i],
                    ) || pending_contains(queue@, qi as int, imports_of(m, root)[i]),
                forall|k: Seq<char>, i: int|
                    visited@.dom().contains(k) && 0 <= i < imports_of(m, k).len()
                        ==> visited@.dom().contains(#[trigger] imports_of(m, k)[i])
                            || pending_contains(queue@, qi as int, imports_of(m, k)[i]),
            decreases source_dom(m).difference(visited@.dom()).len(), queue.len() - qi,
        {
            let id = queue[qi].clone();
            let ghost qi_old = qi as int;
            qi += 1;
            let already = visited.contains_key(&id);
            if !already {
                let record = match self.read_proto(&id) {
                    Ok(record) => record,
                    Err(e) => {
                        return Err(e);
                    },
                };
                let ghost q_before = queue@;
                let mut imports = clone_strings(&record.imports);
                queue.append(&mut imports);
                proof {
                    assert forall|i: int| 0 <= i < imports_of(m, id@).len()
                        implies (#[trigger] imports_of(m, id@)[i]) == queue@[q_before.len() + i]@ by {
                        assert(record@.imports[i] == record.imports@.map_values(|s: String| s@)[i]);
                    }
                    assert forall|l: int| 0 <= l < queue@.len()
                        implies reaches(m, root, (#[trigger] queue@[l])@) by {
                        if l >= q_before.len() {
                            assert(imports_of(m, id@).contains(imports_of(m, id@)[l
                                - q_before.len()]));
                            lemma_reaches_step(m, root, id@, queue@[l]@);
                        }
                    }
                }
                let ghost v_before = visited@;
                visited.insert(id, record);
                proof {
                    lemma_step_ok_in_source_dom(m, queue@[qi_old]@);
                    assert(visited@.dom() =~= v_before.dom().insert(queue@[qi_old]@));
                    assert(visited@.dom().len() == v_before.dom().len() + 1);
                    assert(source_dom(m).difference(visited@.dom()) =~= source_dom(m).difference(
                        v_before.dom(),
                    ).remove(queue@[qi_old]@));
                    assert(source_dom(m).difference(v_before.dom()).contains(queue@[qi_old]@));
                    assert(source_dom(m).difference(v_before.dom()).finite());
                    assert(source_dom(m).difference(visited@.dom()).len() < source_dom(
                        m,
                    ).difference(v_before.dom()).len());
                    assert forall|k: Seq<char>, i: int|
                        visited@.dom().contains(k) && 0 <= i < imports_of(m, k).len()
                        implies visited@.dom().contains(#[trigger] imports_of(m, k)[i])
                            || pending_contains(queue@, qi as int, imports_of(m, k)[i]) by {
                        let t = imports_of(m, k)[i];
                        if k == queue@[qi_old]@ && !v_before.dom().contains(k) {
                            assert(queue@[q_before.len() + i]@ == t);
                            assert(pending_contains(queue@, qi as int, t));
                        } else {
                            assert(v_before.dom().contains(k));
                            if !v_before.dom().contains(t) {
                                let l = choose|l: int|
                                    qi_old <= l < q_before.len() && (#[trigger] q_before[l])@ == t;
                                if l == qi_old {
                                    assert(visited@.dom().contains(t));
                                } else {
                                    assert(queue@[l]@ == t);
                                    assert(pending_contains(queue@, qi as int, t));
                                }
                            }
                        }
                    }
                    assert forall|i: int| 0 <= i < imports_of(m, root).len()
                        implies visited@.dom().contains(#[trigger] imports_of(m, root)[i])
                            || pending_contains(queue@, qi as int, imports_of(m, root)[i]) by {
                        let t = imports_of(m, root)[i];
                        if !v_before.dom().contains(t) && pending_contains(q_before, qi_old, t) {
                            let l = choose|l: int|
                                qi_old <= l < q_before.len() && (#[trigger] q_before[l])@ == t;
                            if l == qi_old {
                                assert(visited@.dom().contains(t));
                            } else {
                                assert(queue@[l]@ == t);
                                assert(pending_contains(queue@, qi as int, t));
                            }
                        }
                    }
                }
            } else {
                proof {
                    assert forall|k: Seq<char>, i: int|
                        visited@.dom().contains(k) && 0 <= i < imports_of(m, k).len()
                        implies visited@.dom().contains(#[trigger] imports_of(m, k)[i])
                            || pending_contains(queue@, qi as int, imports_of(m, k)[i]) by {
                        let t = imports_of(m, k)[i];
                        if !visited@.dom().contains(t) {
                            let l = choose|l: int|
                                qi_old <= l < queue@.len() && (#[trigger] queue@[l])@ == t;
                            if l == qi_old {
                                assert(visited@.dom().contains(id@));
                            } else {
                                assert(pending_contains(queue@, qi as int, t));
                            }
                        }
                    }
                    assert forall|i: int| 0 <= i < imports_of(m, root).len()
                        implies visited@.dom().contains(#[trigger] imports_of(m, root)[i])
                            || pending_contains(queue@, qi as int, imports_of(m, root)[i]) by {
                        let t = imports_of(m, root)[i];
                        if !visited@.dom().contains(t) {
                            let l = choose|l: int|
                                qi_old <= l < queue@.len() && (#[trigger] queue@[l])@ == t;
                            if l == qi_old {
                                assert(visited@.dom().contains(id@));
                            } else {
                                assert(pending_contains(queue@, qi as int, t));
                            }
                        }
                    }
                }
            }
        }
        let ghost v_drained = visited@;
        let in_map = visited.contains_key(&proto_path);
        if !in_map {
            visited.insert(proto_path, root_record);
        }
        proof {
            assert(visited@ =~= v_drained.insert(root, record_of(m, root)));
            if in_map {
                assert(visited@.dom() =~= v_drained.dom());
            } else {
                assert(visited@.dom() =~= v_drained.dom().insert(root));
            }
            assert(visited@.dom().finite());
            assert(visited@.dom().len() >= v_drained.dom().len());
            let fdom = visited@.dom();
            assert(fdom.contains(root));
            assert forall|a: Seq<char>, i: int|
                fdom.contains(a) && step_ok(m, a) && 0 <= i < imports_of(m, a).len()
                implies fdom.contains(#[trigger] imports_of(m, a)[i]) by {
                let t = imports_of(m, a)[i];
                if a == root {
                    assert(v_drained.dom().contains(t) || pending_contains(
                        queue@,
                        qi as int,
                        t,
                    ));
                } else {
                    assert(v_drained.dom().contains(a));
                    assert(v_drained.dom().contains(t) || pending_contains(
                        queue@,
                        qi as int,
                        t,
                    ));
                }
            }
            lemma_reaches_in_closed_set(m, root, fdom);
            assert forall|k: Seq<char>| #[trigger] fdom.contains(k)
                implies d0.dom().contains(k) || closure(m, root).contains(k) by {
                if k == root {
                    lemma_reaches_self(m, root);
                } else {
                    assert(v_drained.dom().contains(k));
                }
            }
            assert(fdom =~= d0.dom() + closure(m, root));
            assert(closed(m, visited@));
        }
        Ok(visited)
    }

    /// Reads the script file and replaces the external reference with the
    /// loaded code, preserving the timeout; an already-inline script, and a
    /// configuration without one, are untouched, as is everything else in the
    /// bundle.
    pub fn ext_script(&mut self, config_set: ConfigSet) -> (r: Result<ConfigSet, ConfigError>)
        ensures
            final(self).model() == old(self).model(),
            r is Ok <==> inline_script(old(self).model(), config_set@.config.server.script)
                is Some,
            r is Ok ==> r->Ok_0@.config.server.script == inline_script(
                old(self).model(),
                config_set@.config.server.script,
            )->0,
            r is Ok ==> r->Ok_0.config.types == config_set.config.types
                && r->Ok_0.config.upstream == config_set.config.upstream
                && r->Ok_0.config.server.enable_graphiql == config_set.config.server.enable_graphiql
                && r->Ok_0.config.server.hostname == config_set.config.server.hostname
                && r->Ok_0.config.server.port == config_set.config.server.port
                && r->Ok_0.config.server.vary == config_set.config.server.vary
                && r->Ok_0.extensions == config_set.extensions,
            r is Err ==> r->Err_0 is Io && (config_set@.config.server.script matches Some(
                ScriptV::Path(o),
            ) && r->Err_0.spec_reference() == o.src),
            script_is_external(config_set@.config.server.script) ==> final(self).io_count()
                == old(self).io_count() + 1,
            !script_is_external(config_set@.config.server.script) ==> final(self).io_count()
                == old(self).io_count(),
    {
        let ConfigSet { config, extensions } = config_set;
        let Config { types, server, upstream } = config;
        let Server { script, enable_graphiql, hostname, port, vary } = server;
        let script = match script {
            Some(Script::Path(o)) => {
                let code = match self.read_file(&o.src) {
                    Ok(code) => code,
                    Err(e) => {
                        return Err(e);
                    },
                };
                Some(Script::Inline(ScriptOptions { src: code, timeout: o.timeout }))
            },
            other => other,
        };
        Ok(
            ConfigSet {
                config: Config {
                    types,
                    server: Server { script, enable_graphiql, hostname, port, vary },
                    upstream,
                },
                extensions,
            },
        )
    }

    /// Resolves every protocol-descriptor path the type graph references and
    /// rebuilds the bundle's descriptor set from scratch as the union of the
    /// per-path closures: a pure function of the set of distinct paths,
    /// independent of scan order. The configuration itself is untouched; a
    /// failure anywhere is fatal and names the offending identifier.
    #[verifier::loop_isolation(false)]
    pub fn ext_grpc(&mut self, config_set: ConfigSet) -> (r: Result<ConfigSet, ConfigError>)
        requires
            config_set.config.wf(),
        ensures
            final(self).model() == old(self).model(),
            r is Ok <==> roots_ok(old(self).model(), grpc_paths(config_set@.config)),
            r is Ok ==> r->Ok_0.config == config_set.config && r->Ok_0.wf(),
            r is Ok ==> r->Ok_0@.extensions.descriptors == descriptors_view(
                old(self).model(),
                grpc_paths(config_set@.config),
            ),
            r is Err ==> exists|root: Seq<char>| #[trigger]
                grpc_paths(config_set@.config).contains(root) && reaches(
                    old(self).model(),
                    root,
                    r->Err_0.spec_reference(),
                ) && !step_ok(old(self).model(), r->Err_0.spec_reference()),
            (grpc_paths(config_set@.config) =~= Set::<Seq<char>>::empty())
                ==> final(self).io_count() == old(self).io_count(),
    {
        let ghost m = self.model();
        let ghost c0 = config_set@.config;
        let ghost io0 = self.io_count();
        let paths = collect_grpc_paths(&config_set.config);
        let mut descriptors = DescriptorSet::new();
        let mut i: usize = 0;
        proof {
            assert(descriptors@.dom() =~= prefix_closures(m, paths@, 0));
            if paths@.len() > 0 {
                assert(grpc_paths(c0).contains(paths@[0]@));
            }
        }
        while i < paths.len()
            invariant
                self.model() == m,
                paths@.len() == 0 ==> self.io_count() == io0,
                i <= paths.len(),
                descriptors.wf(),
                coherent(m, descriptors@),
                closed(m, descriptors@),
                descriptors@.dom() == prefix_closures(m, paths@, i as int),
            decreases paths.len() - i,
        {
            let path = paths[i].clone();
            let ghost before = descriptors@;
            descriptors = match self.resolve_descriptors(descriptors, path) {
                Ok(d) => d,
                Err(e) => {
                    proof {
                        assert(grpc_paths(c0).contains(paths@[i as int]@));
                    }
                    return Err(e);
                },
            };
            proof {
                assert forall|id: Seq<char>| #[trigger] descriptors@.dom().contains(id)
                    implies prefix_closures(m, paths@, i as int + 1).contains(id) by {
                    if before.dom().contains(id) {
                        let j = choose|j: int|
                            0 <= j < i && reaches(m, (#[trigger] paths@[j])@, id);
                        assert(0 <= j < i + 1);
                    } else {
                        assert(reaches(m, paths@[i as int]@, id));
                    }
                }
                assert forall|id: Seq<char>|
                    prefix_closures(m, paths@, i as int + 1).contains(id)
                    implies #[trigger] descriptors@.dom().contains(id) by {
                    let j = choose|j: int|
                        0 <= j < i + 1 && reaches(m, (#[trigger] paths@[j])@, id);
                    if j < i {
                        assert(before.dom().contains(id));
                    } else {
                        assert(closure(m, paths@[i as int]@).contains(id));
                    }
                }
                assert(descriptors@.dom() =~= prefix_closures(m, paths@, i as int + 1));
            }
            i += 1;
        }
        proof {
            assert forall|id: Seq<char>| #[trigger] descriptors@.dom().contains(id)
                implies descriptors_view(m, grpc_paths(c0)).dom().contains(id) by {
                let j = choose|j: int|
                    0 <= j < paths@.len() && reaches(m, (#[trigger] paths@[j])@, id);
                assert(grpc_paths(c0).contains(paths@[j]@));
            }
            assert forall|id: Seq<char>|
                descriptors_view(m, grpc_paths(c0)).dom().contains(id)
                implies #[trigger] descriptors@.dom().contains(id) by {
                let root = choose|root: Seq<char>| #[trigger]
                    grpc_paths(c0).contains(root) && reaches(m, root, id);
                assert(strs_view(paths@).contains(root));
                let j = choose|j: int|
                    0 <= j < strs_view(paths@).len() && strs_view(paths@)[j] == root;
                assert(paths@[j]@ == root);
                assert(prefix_closures(m, paths@, paths@.len() as int).contains(id));
            }
            assert(descriptors@ =~= descriptors_view(m, grpc_paths(c0)));
            assert forall|root: Seq<char>, id: Seq<char>|
                grpc_paths(c0).contains(root) && #[trigger] reaches(m, root, id)
                implies step_ok(m, id) by {
                assert(descriptors_view(m, grpc_paths(c0)).dom().contains(id));
                assert(descriptors@.dom().contains(id));
            }
        }
        let ConfigSet { config, extensions: _ } = config_set;
        Ok(ConfigSet { config, extensions: Extensions { descriptors } })
    }

    /// Resolves all the links in one parsed configuration to create a
    /// `ConfigSet`: the script reference is inlined, and the descriptor set
    /// is rebuilt from the referenced paths' closures.
    pub fn resolve(&mut self, config: Config) -> (r: Result<ConfigSet, ConfigError>)
        requires
            config.wf(),
        ensures
            final(self).model() == old(self).model(),
            r is Ok <==> resolve_ok(old(self).model(), config@),
            r is Ok ==> r->Ok_0@ == resolve_view(old(self).model(), config@) && r->Ok_0.wf(),
            r is Err ==> resolve_err_names(old(self).model(), config@, r->Err_0),
    {
        let ghost m = self.model();
        let ghost c0 = config@;
        let config_set = ConfigSet::from_config(config);
        let inlined = match self.ext_script(config_set) {
            Ok(cs) => cs,
            Err(e) => {
                return Err(e);
            },
        };
        proof {
            lemma_grpc_paths_types_only(inlined@.config, c0);
        }
        let resolved = match self.ext_grpc(inlined) {
            Ok(cs) => cs,
            Err(e) => {
                proof {
                    assert(inline_script(m, c0.server.script) is Some);
                }
                return Err(e);
            },
        };
        proof {
            assert(resolved@.config.types == c0.types);
            assert(resolved@.config.server == ServerV {
                script: inline_script(m, c0.server.script)->0,
                ..c0.server
            });
            assert(resolved@.config.upstream == c0.upstream);
            assert(resolved@.extensions.descriptors == descriptors_view(m, grpc_paths(c0)));
            assert(resolved@ == resolve_view(m, c0));
        }
        Ok(resolved)
    }

    /// Reads all the input references and returns the merged configuration
    /// bundle: every reference is loaded, parsed and extension-resolved, and
    /// the per-file results are folded pairwise in input order by the
    /// right-biased merge. Any failure for any file aborts the whole call; no
    /// partial bundle is ever returned.
    #[verifier::loop_isolation(false)]
    pub fn read_all(&mut self, files: &Vec<String>) -> (r: Result<ConfigSet, ConfigError>)
        ensures
            final(self).model() == old(self).model(),
            r is Ok <==> read_all_ok(old(self).model(), strs_view(files@)),
            r is Ok ==> r->Ok_0@ == read_all_view(old(self).model(), strs_view(files@))
                && r->Ok_0.wf(),
            r is Err ==> exists|i: int|
                0 <= i < strs_view(files@).len() && !per_file_ok(
                    old(self).model(),
                    #[trigger] strs_view(files@)[i],
                ) && file_error_names(old(self).model(), strs_view(files@)[i], r->Err_0),
    {
        let ghost m = self.model();
        let ghost fv = strs_view(files@);
        let contents = match self.read_files(files) {
            Ok(contents) => contents,
            Err(e) => {
                proof {
                    let i = choose|i: int|
                        0 <= i < files@.len() && load_of(m, (#[trigger] files@[i])@) is None
                            && e.spec_reference() == files@[i]@;
                    assert(fv[i] == files@[i]@);
                    assert(!per_file_ok(m, fv[i]));
                    assert(file_error_names(m, fv[i], e));
                }
                return Err(e);
            },
        };
        let mut config_set = ConfigSet::default();
        let mut i: usize = 0;
        proof {
            assert(fv.subrange(0, 0) =~= Seq::<Seq<char>>::empty());
        }
        while i < files.len()
            invariant
                self.model() == m,
                i <= files.len(),
                contents@.len() == files@.len(),
                forall|j: int|
                    0 <= j < files@.len() ==> load_of(m, (#[trigger] files@[j])@) is Some
                        && contents@[j]@ == load_of(m, files@[j]@)->0,
                config_set.wf(),
                config_set@ == read_all_view(m, fv.subrange(0, i as int)),
                forall|j: int| 0 <= j < i ==> per_file_ok(m, #[trigger] fv[j]),
            decreases files.len() - i,
        {
            let source = match crate::source::Source::detect(&files[i]) {
                Ok(source) => source,
                Err(e) => {
                    proof {
                        assert(!per_file_ok(m, fv[i as int]));
                        assert(file_error_names(m, fv[i as int], e));
                    }
                    return Err(e);
                },
            };
            let config = match self.runtime.parse_config(source, &files[i], &contents[i]) {
                Ok(config) => config,
                Err(e) => {
                    proof {
                        assert(!per_file_ok(m, fv[i as int]));
                        assert(file_error_names(m, fv[i as int], e));
                    }
                    return Err(e);
                },
            };
            let resolved = match self.resolve(config) {
                Ok(resolved) => resolved,
                Err(e) => {
                    proof {
                        assert(!per_file_ok(m, fv[i as int]));
                        assert(file_error_names(m, fv[i as int], e));
                    }
                    return Err(e);
                },
            };
            let ghost prev = config_set@;
            config_set = config_set.merge_right(resolved);
            proof {
                assert(fv.subrange(0, i as int + 1).drop_last() =~= fv.subrange(0, i as int));
                assert(fv.subrange(0, i as int + 1).last() == fv[i as int]);
                assert(resolved@ == per_file_view(m, fv[i as int]));
                assert(config_set@ == read_all_view(m, fv.subrange(0, i as int + 1)));
            }
            i += 1;
        }
        proof {
            assert(fv.subrange(0, fv.len() as int) =~= fv);
        }
        Ok(config_set)
    }

    /// Reads a single reference and returns its resolved bundle, folded over
    /// the empty accumulator.
    pub fn read(&mut self, file: &String) -> (r: Result<ConfigSet, ConfigError>)
        ensures
            final(self).model() == old(self).model(),
            r is Ok <==> per_file_ok(old(self).model(), file@),
            r is Ok ==> r->Ok_0@ == merge_view(
                empty_config_set_view(),
                per_file_view(old(self).model(), file@),
            ) && r->Ok_0.wf(),
            r is Err ==> !per_file_ok(old(self).model(), file@) && file_error_names(
                old(self).model(),
                file@,
                r->Err_0,
            ),
    {
        let ghost m = self.model();
        let files = vec![file.clone()];
        proof {
            assert(strs_view(files@) =~= seq![file@]);
            assert(strs_view(files@).drop_last() =~= Seq::<Seq<char>>::empty());
        }
        let r = self.read_all(&files);
        proof {
            let fv = strs_view(files@);
            assert(fv.len() == 1 && fv[0] == file@ && fv.last() == file@);
            assert(read_all_ok(m, fv) <==> per_file_ok(m, file@)) by {
                if per_file_ok(m, file@) {
                    assert(forall|i: int| 0 <= i < fv.len() ==> per_file_ok(m, #[trigger] fv[i]));
                }
            }
            assert(read_all_view(m, fv.drop_last()) == empty_config_set_view());
            assert(read_all_view(m, fv) == merge_view(
                empty_config_set_view(),
                per_file_view(m, file@),
            ));
            if r is Err {
                let i = choose|i: int|
                    0 <= i < fv.len() && !per_file_ok(m, #[trigger] fv[i]) && file_error_names(
                        m,
                        fv[i],
                        r->Err_0,
                    );
                assert(fv[i] == file@);
            }
        }
        r
    }
}

/// Returns the descriptor path a field references, if any.
fn field_proto_path<'a>(field: &'a Field) -> (r: Option<&'a String>)
    ensures
        match r {
            Some(p) => field_path(field@) == Some(p@),
            None => field_path(field@) is None,
        },
{
    match &field.grpc {
        Some(g) => Some(&g.proto_path),
        None => match &field.expr {
            Some(e) => match &e.body {
                ExprBody::Grpc(g) => Some(&g.proto_path),
                ExprBody::Const(_) => None,
            },
            None => None,
        },
    }
}

/// Scans every type field for a descriptor path, declared directly or nested
/// inside an expression body, and returns the paths found: together they
/// carry exactly the configuration's referenced path set.
#[verifier::loop_isolation(false)]
fn collect_grpc_paths(config: &Config) -> (r: Vec<String>)
    requires
        config.wf(),
    ensures
        forall|j: int| 0 <= j < r@.len() ==> grpc_paths(config@).contains((#[trigger] r@[j])@),
        forall|p: Seq<char>| #[trigger] grpc_paths(config@).contains(p) ==> strs_view(r@).contains(
            p,
        ),
{
    proof {
        crate::assoc::lemma_assoc_view_dom(config.types@);
    }
    let mut out: Vec<String> = Vec::new();
    let mut t: usize = 0;
    while t < config.types.len()
        invariant
            t <= config.types.len(),
            forall|j: int|
                0 <= j < out@.len() ==> grpc_paths(config@).contains((#[trigger] out@[j])@),
            forall|a: int, b: int|
                #![trigger config.types@[a].1.fields@[b]]
                0 <= a < t && 0 <= b < config.types@[a].1.fields@.len() ==> (match field_path(
                    config.types@[a].1.fields@[b].1@,
                ) {
                    Some(p) => strs_view(out@).contains(p),
                    None => true,
                }),
        decreases config.types.len() - t,
    {
        let fields = &config.types[t].1.fields;
        proof {
            crate::assoc::lemma_assoc_view_dom(fields@);
        }
        let mut f: usize = 0;
        while f < fields.len()
            invariant
                f <= fields.len(),
                forall|j: int|
                    0 <= j < out@.len() ==> grpc_paths(config@).contains((#[trigger] out@[j])@),
                forall|a: int, b: int|
                    #![trigger config.types@[a].1.fields@[b]]
                    0 <= a < t && 0 <= b < config.types@[a].1.fields@.len() ==> (match field_path(
                        config.types@[a].1.fields@[b].1@,
                    ) {
                        Some(p) => strs_view(out@).contains(p),
                        None => true,
                    }),
                forall|b: int|
                    #![trigger fields@[b]]
                    0 <= b < f ==> (match field_path(fields@[b].1@) {
                        Some(p) => strs_view(out@).contains(p),
                        None => true,
                    }),
            decreases fields.len() - f,
        {
            let found = field_proto_path(&fields[f].1);
            match found {
                Some(path) => {
                    proof {
                        crate::assoc::lemma_assoc_view_at(config.types@, t as int);
                        crate::assoc::lemma_assoc_view_at(fields@, f as int);
                        let tn = config.types@[t as int].0@;
                        let fname = fields@[f as int].0@;
                        assert(config@.types.dom().contains(tn));
                        assert(config@.types[tn] == config.types@[t as int].1@);
                        assert(config@.types[tn].fields.dom().contains(fname));
                        assert(config@.types[tn].fields[fname] == fields@[f as int].1@);
                        assert(grpc_paths(config@).contains(path@));
                    }
                    let ghost before = out@;
                    out.push(path.clone());
                    proof {
                        assert(strs_view(out@) =~= strs_view(before).push(path@));
                        assert forall|q: Seq<char>| strs_view(before).contains(q)
                            implies strs_view(out@).contains(q) by {
                            let j = choose|j: int|
                                0 <= j < strs_view(before).len() && strs_view(before)[j] == q;
                            assert(strs_view(out@)[j] == q);
                        }
                        assert(strs_view(out@)[out@.len() - 1] == path@);
                        assert(strs_view(out@).contains(path@));
                    }
                },
                None => {
                },
            }
            f += 1;
        }
        t += 1;
    }
    proof {
        assert forall|p: Seq<char>| #[trigger] grpc_paths(config@).contains(p)
            implies strs_view(out@).contains(p) by {
            let (tn, fname): (Seq<char>, Seq<char>) = choose|tn: Seq<char>, fname: Seq<char>|
                {
                    &&& config@.types.dom().contains(tn)
                    &&& config@.types[tn].fields.dom().contains(fname)
                    &&& field_path(#[trigger] config@.types[tn].fields[fname]) == Some(p)
                };
            let a = choose|a: int|
                0 <= a < config.types@.len() && (#[trigger] config.types@[a]).0@ == tn;
            crate::assoc::lemma_assoc_view_at(config.types@, a);
            assert(config@.types[tn] == config.types@[a].1@);
            let fields = config.types@[a].1.fields@;
            crate::assoc::lemma_assoc_view_dom(fields);
            let b = choose|b: int| 0 <= b < fields.len() && (#[trigger] fields[b]).0@ == fname;
            crate::assoc::lemma_assoc_view_at(fields, b);
            assert(config@.types[tn].fields[fname] == fields[b].1@);
            assert(field_path(config.types@[a].1.fields@[b].1@) == Some(p));
        }
    }
    out
}

} // verus!
