//! The import graph of protocol-descriptor files, as induced by a runtime
//! snapshot: which file a path denotes, which files it imports, and which
//! identifiers its transitive closure contains.

use vstd::prelude::*;

use crate::descriptor::{is_well_known, parsed_descriptor, well_known_record, DescriptorView};
use crate::runtime::{load_of, RtModel};

verus! {

/// The record reading a descriptor path yields under a model: the bundled
/// well-known catalog is consulted first, with zero transport traffic; only
/// on a miss is the path loaded and parsed.
pub open spec fn read_proto_spec(m: RtModel, path: Seq<char>) -> Option<DescriptorView> {
    if is_well_known(path) {
        Some(well_known_record(path))
    } else {
        match load_of(m, path) {
            Some(content) => parsed_descriptor(path, content),
            None => None,
        }
    }
}

/// The path denotes a descriptor file that loads and parses.
pub open spec fn step_ok(m: RtModel, path: Seq<char>) -> bool {
    read_proto_spec(m, path) is Some
}

/// The record the path denotes.
pub open spec fn record_of(m: RtModel, path: Seq<char>) -> DescriptorView {
    read_proto_spec(m, path)->0
}

/// The import identifiers the path's record declares.
pub open spec fn imports_of(m: RtModel, path: Seq<char>) -> Seq<Seq<char>> {
    record_of(m, path).imports
}

/// `a`'s record resolves and declares an import of `b`.
pub open spec fn edge(m: RtModel, a: Seq<char>, b: Seq<char>) -> bool {
    step_ok(m, a) && imports_of(m, a).contains(b)
}

/// `p` is a chain of import edges from `src` to `dst`.
pub open spec fn is_import_path(m: RtModel, p: Seq<Seq<char>>, src: Seq<char>, dst: Seq<char>) -> bool {
    &&& p.len() >= 1
    &&& p[0] == src
    &&& p.last() == dst
    &&& forall|i: int| 0 <= i < p.len() - 1 ==> edge(m, #[trigger] p[i], p[i + 1])
}

/// `dst` lies in the transitive import closure rooted at `src` (every
/// identifier reaches itself).
pub open spec fn reaches(m: RtModel, src: Seq<char>, dst: Seq<char>) -> bool {
    exists|p: Seq<Seq<char>>| is_import_path(m, p, src, dst)
}

/// The identifiers of the transitive import closure rooted at `root`.
pub open spec fn closure(m: RtModel, root: Seq<char>) -> Set<Seq<char>> {
    Set::new(|id: Seq<char>| reaches(m, root, id))
}

/// The identifiers a traversal can ever resolve: the catalog's names and the
/// snapshot's sources.
pub open spec fn source_dom(m: RtModel) -> Set<Seq<char>> {
    crate::descriptor::well_known_names() + m.files.dom() + m.urls.dom()
}

/// An identifier that resolves lies among the loadable sources.
pub proof fn lemma_step_ok_in_source_dom(m: RtModel, path: Seq<char>)
    requires
        step_ok(m, path),
    ensures
        source_dom(m).contains(path),
{
}

/// Every identifier reaches itself.
pub proof fn lemma_reaches_self(m: RtModel, id: Seq<char>)
    ensures
        reaches(m, id, id),
{
    let p = seq![id];
    assert(is_import_path(m, p, id, id));
}

/// Reachability extends along an import edge.
pub proof fn lemma_reaches_step(m: RtModel, src: Seq<char>, mid: Seq<char>, dst: Seq<char>)
    requires
        reaches(m, src, mid),
        edge(m, mid, dst),
    ensures
        reaches(m, src, dst),
{
    let p = choose|p: Seq<Seq<char>>| is_import_path(m, p, src, mid);
    let q = p.push(dst);
    assert(q.last() == dst);
    assert forall|i: int| 0 <= i < q.len() - 1 implies edge(m, #[trigger] q[i], q[i + 1]) by {
        if i < p.len() - 1 {
            assert(q[i] == p[i] && q[i + 1] == p[i + 1]);
        } else {
            assert(q[i] == p.last() && q[i + 1] == dst);
        }
    }
    assert(is_import_path(m, q, src, dst));
}

/// A set that contains the root and is closed under import edges contains
/// everything the root reaches.
pub proof fn lemma_reaches_in_closed_set(m: RtModel, root: Seq<char>, s: Set<Seq<char>>)
    requires
        s.contains(root),
        forall|a: Seq<char>, i: int|
            s.contains(a) && step_ok(m, a) && 0 <= i < imports_of(m, a).len()
                ==> s.contains(#[trigger] imports_of(m, a)[i]),
    ensures
        forall|dst: Seq<char>| #[trigger] reaches(m, root, dst) ==> s.contains(dst),
{
    assert forall|dst: Seq<char>| #[trigger] reaches(m, root, dst) implies s.contains(dst) by {
        let p = choose|p: Seq<Seq<char>>| is_import_path(m, p, root, dst);
        lemma_path_stays_in_closed_set(m, p, root, dst, s);
    }
}

proof fn lemma_path_stays_in_closed_set(
    m: RtModel,
    p: Seq<Seq<char>>,
    root: Seq<char>,
    dst: Seq<char>,
    s: Set<Seq<char>>,
)
    requires
        is_import_path(m, p, root, dst),
        s.contains(root),
        forall|a: Seq<char>, i: int|
            s.contains(a) && step_ok(m, a) && 0 <= i < imports_of(m, a).len()
                ==> s.contains(#[trigger] imports_of(m, a)[i]),
    ensures
        s.contains(dst),
    decreases p.len(),
{
    if p.len() == 1 {
        assert(dst == root);
    } else {
        let q = p.drop_last();
        let mid = p[p.len() - 2];
        assert forall|i: int| 0 <= i < q.len() - 1 implies edge(m, #[trigger] q[i], q[i + 1]) by {
            assert(q[i] == p[i] && q[i + 1] == p[i + 1]);
        }
        assert(is_import_path(m, q, root, mid));
        lemma_path_stays_in_closed_set(m, q, root, mid, s);
        assert(edge(m, p[p.len() - 2], p[p.len() - 1]));
        let imports = imports_of(m, mid);
        let j = choose|j: int| 0 <= j < imports.len() && imports[j] == dst;
        assert(s.contains(imports[j]));
    }
}

/// Law: a descriptor file with no imports resolves to the closure that
/// contains the file itself and nothing else.
pub proof fn lemma_closure_of_leaf_is_singleton(m: RtModel, root: Seq<char>)
    requires
        step_ok(m, root),
        imports_of(m, root).len() == 0,
    ensures
        closure(m, root) == Set::<Seq<char>>::empty().insert(root),
{
    lemma_reaches_self(m, root);
    assert forall|dst: Seq<char>| #[trigger] reaches(m, root, dst) implies dst == root by {
        let p = choose|p: Seq<Seq<char>>| is_import_path(m, p, root, dst);
        if p.len() >= 2 {
            assert(edge(m, p[0], p[1]));
            assert(imports_of(m, root).contains(p[1]));
        }
    }
    assert(closure(m, root) =~= Set::<Seq<char>>::empty().insert(root));
}

/// The visited map is coherent with the model: every identifier it holds
/// resolves, to the very record the map binds it to.
pub open spec fn coherent(m: RtModel, d: Map<Seq<char>, DescriptorView>) -> bool {
    forall|k: Seq<char>|
        #[trigger] d.dom().contains(k) ==> step_ok(m, k) && d[k] == record_of(m, k)
}

/// The visited map is closed under imports: whatever an entry's record
/// declares is itself present.
pub open spec fn closed(m: RtModel, d: Map<Seq<char>, DescriptorView>) -> bool {
    forall|k: Seq<char>, i: int|
        d.dom().contains(k) && 0 <= i < imports_of(m, k).len() ==> d.dom().contains(
            #[trigger] imports_of(m, k)[i],
        )
}

/// Law: the resolved descriptor set for a root is determined by the snapshot
/// alone — two resolutions of an unchanged graph that start from equally
/// keyed accumulators yield the identical set.
pub proof fn lemma_resolution_deterministic(
    m: RtModel,
    d1: Map<Seq<char>, DescriptorView>,
    d2: Map<Seq<char>, DescriptorView>,
    dom0: Set<Seq<char>>,
    root: Seq<char>,
)
    requires
        coherent(m, d1),
        coherent(m, d2),
        d1.dom() == dom0 + closure(m, root),
        d2.dom() == dom0 + closure(m, root),
        forall|k: Seq<char>| #[trigger] dom0.contains(k) ==> step_ok(m, k),
    ensures
        d1 == d2,
{
    assert(d1 =~= d2);
}

} // verus!
