//! Protocol-descriptor records, the collections they are gathered in, and the
//! trusted bridges to the descriptor parser and the bundled well-known
//! catalog.

use vstd::prelude::*;

use protox::file::FileResolver;

use crate::assoc::{
    assoc_contains, assoc_get, assoc_has_key, assoc_view, assoc_wf, lemma_assoc_view_dom,
    lemma_assoc_view_len, lemma_assoc_view_push,
};

verus! {

/// The mathematical content of a parsed descriptor file: its declared name
/// and the identifiers of the files it imports.
pub ghost struct DescriptorView {
    pub name: Seq<char>,
    pub imports: Seq<Seq<char>>,
}

/// A parsed protocol-descriptor file: its declared name and the list of
/// import identifiers it declares.
#[derive(Debug)]
pub struct DescriptorRecord {
    pub name: String,
    pub imports: Vec<String>,
}

impl View for DescriptorRecord {
    type V = DescriptorView;

    open spec fn view(&self) -> DescriptorView {
        DescriptorView {
            name: self.name@,
            imports: self.imports@.map_values(|s: String| s@),
        }
    }
}

impl Clone for DescriptorRecord {
    /// Returns a record with the same content.
    fn clone(&self) -> (r: Self)
        ensures
            r@ == self@,
    {
        let mut imports: Vec<String> = Vec::new();
        let mut i: usize = 0;
        while i < self.imports.len()
            invariant
                i <= self.imports.len(),
                imports@ =~= self.imports@.subrange(0, i as int),
            decreases self.imports.len() - i,
        {
            imports.push(self.imports[i].clone());
            i += 1;
        }
        proof {
            assert(imports@ =~= self.imports@);
        }
        DescriptorRecord { name: self.name.clone(), imports }
    }
}

/// What the descriptor parser returns for a file named `path` with the given
/// content, if it parses at all.
pub uninterp spec fn parsed_descriptor(path: Seq<char>, content: Seq<char>) -> Option<
    DescriptorView,
>;

/// Relies on protox_parse::parse: the result is a function of the name and
/// source text alone.
#[verifier::external_body]
pub(crate) fn parse_descriptor(path: &String, content: &String) -> (r: Result<
    DescriptorRecord,
    String,
>)
    ensures
        r is Ok <==> parsed_descriptor(path@, content@) is Some,
        r is Ok ==> r->Ok_0@ == parsed_descriptor(path@, content@)->0,
{
    match protox_parse::parse(path, content) {
        Ok(fd) => Ok(DescriptorRecord {
            name: fd.name.unwrap_or_default(),
            imports: fd.dependency,
        }),
        Err(e) => Err(e.to_string()),
    }
}

/// The record of a bundled well-known catalog entry. Meaningful only on the
/// paths `is_well_known` holds of.
pub uninterp spec fn well_known_record(path: Seq<char>) -> DescriptorView;

/// The names of the bundled well-known catalog: a fixed, process-wide table
/// of standard descriptor files.
pub open spec fn well_known_names() -> Set<Seq<char>> {
    Set::<Seq<char>>::empty()
        .insert("google/protobuf/any.proto"@)
        .insert("google/protobuf/api.proto"@)
        .insert("google/protobuf/descriptor.proto"@)
        .insert("google/protobuf/duration.proto"@)
        .insert("google/protobuf/empty.proto"@)
        .insert("google/protobuf/field_mask.proto"@)
        .insert("google/protobuf/source_context.proto"@)
        .insert("google/protobuf/struct.proto"@)
        .insert("google/protobuf/timestamp.proto"@)
        .insert("google/protobuf/type.proto"@)
        .insert("google/protobuf/wrappers.proto"@)
        .insert("google/protobuf/compiler/plugin.proto"@)
}

/// `path` names a file of the bundled well-known catalog.
pub open spec fn is_well_known(path: Seq<char>) -> bool {
    well_known_names().contains(path)
}

/// Relies on protox's GoogleFileResolver: it resolves exactly the fixed
/// well-known names, the outcome depends on the path alone (the catalog is
/// compiled in, and an entry of it can never be replaced), no transport is
/// consulted, and each entry's declared name is the name it is filed under.
#[verifier::external_body]
pub(crate) fn open_well_known(path: &String) -> (r: Option<DescriptorRecord>)
    ensures
        r is Some <==> is_well_known(path@),
        r is Some ==> r->0@ == well_known_record(path@),
        r is Some ==> r->0@.name == path@,
{
    match protox::file::GoogleFileResolver::new().open_file(path) {
        Ok(file) => {
            let fd = file.file_descriptor_proto();
            Some(DescriptorRecord {
                name: fd.name.clone().unwrap_or_default(),
                imports: fd.dependency.clone(),
            })
        },
        Err(_) => None,
    }
}

/// One resolved transitive-import closure, or the union of several: a mapping
/// from import identifier to descriptor record.
#[derive(Debug)]
pub struct DescriptorSet {
    entries: Vec<(String, DescriptorRecord)>,
}

impl View for DescriptorSet {
    type V = Map<Seq<char>, DescriptorView>;

    closed spec fn view(&self) -> Map<Seq<char>, DescriptorView> {
        assoc_view(self.entries@)
    }
}

impl DescriptorSet {
    /// Each identifier has a single entry.
    pub closed spec fn wf(&self) -> bool {
        assoc_wf(self.entries@)
    }

    /// Returns the empty set.
    pub fn new() -> (r: DescriptorSet)
        ensures
            r@ == Map::<Seq<char>, DescriptorView>::empty(),
            r.wf(),
    {
        DescriptorSet { entries: Vec::new() }
    }

    /// Returns whether an identifier is present.
    pub fn contains_key(&self, key: &String) -> (r: bool)
        ensures
            r == self@.dom().contains(key@),
    {
        assoc_contains(&self.entries, key)
    }

    /// Returns the record an identifier is bound to, if any.
    pub fn get(&self, key: &String) -> (r: Option<&DescriptorRecord>)
        ensures
            match r {
                Some(rec) => self@.dom().contains(key@) && rec@ == self@[key@],
                None => !self@.dom().contains(key@),
            },
    {
        assoc_get(&self.entries, key)
    }

    /// The set holds finitely many identifiers.
    pub proof fn lemma_dom_finite(&self)
        ensures
            self@.dom().finite(),
    {
        lemma_assoc_view_len(self.entries@);
    }

    /// Returns the number of identifiers.
    pub fn len(&self) -> (r: usize)
        ensures
            self.wf() ==> r == self@.dom().len(),
    {
        proof {
            lemma_assoc_view_len(self.entries@);
        }
        self.entries.len()
    }

    /// Binds a fresh identifier to a record.
    pub fn insert(&mut self, key: String, record: DescriptorRecord)
        requires
            !old(self)@.dom().contains(key@),
        ensures
            final(self)@ == old(self)@.insert(key@, record@),
            old(self).wf() ==> final(self).wf(),
    {
        proof {
            lemma_assoc_view_push(self.entries@, (key, record));
            lemma_assoc_view_dom(self.entries@);
        }
        let ghost pre = self.entries@;
        self.entries.push((key, record));
        proof {
            if assoc_wf(pre) {
                assert forall|i: int, j: int| 0 <= i < j < self.entries@.len()
                    implies self.entries@[i].0@ != self.entries@[j].0@ by {
                    if j == self.entries@.len() - 1 {
                        assert(assoc_has_key(pre, pre[i].0@));
                    }
                }
            }
        }
    }

    /// Unions two sets; on a shared identifier the right side's record is
    /// taken. Identifiers shared across sets are assumed to name the same
    /// descriptor.
    pub fn union_right(self, other: DescriptorSet) -> (r: DescriptorSet)
        ensures
            r@.dom() =~= self@.dom() + other@.dom(),
            forall|k: Seq<char>| #[trigger] other@.dom().contains(k) ==> r@[k] == other@[k],
            forall|k: Seq<char>|
                self@.dom().contains(k) && !other@.dom().contains(k) ==> #[trigger] r@[k]
                    == self@[k],
            self.wf() && other.wf() ==> r.wf(),
    {
        DescriptorSet { entries: crate::assoc::assoc_union_right(self.entries, other.entries) }
    }
}

} // verus!
