//! The injected collaborators: transports for local and remote content and
//! the per-format document parser, together with their mathematical model.

use vstd::prelude::*;

use crate::config::{Config, ConfigV};
use crate::error::{ConfigError, IoError};
use crate::source::{is_url, Source};

verus! {

/// The model of one consistent snapshot of the outside world: what each local
/// path and each URL would deliver, and what each document parses to.
/// Resolution results are meaningful as long as the underlying sources do not
/// change; the model of a runtime is fixed, and every transport call is
/// answered from it.
#[verifier::ext_equal]
pub ghost struct RtModel {
    pub files: Map<Seq<char>, Seq<char>>,
    pub urls: Map<Seq<char>, Seq<char>>,
    pub parse: Map<(Source, Seq<char>), ConfigV>,
}

/// What parsing a text of a given format yields under a model, if anything.
pub open spec fn parse_of(m: RtModel, source: Source, text: Seq<char>) -> Option<ConfigV> {
    if m.parse.dom().contains((source, text)) {
        Some(m.parse[(source, text)])
    } else {
        None
    }
}

/// What loading a reference text delivers under a model: remote references
/// are answered from the URL table, local ones from the file table.
pub open spec fn load_of(m: RtModel, reference: Seq<char>) -> Option<Seq<char>> {
    if is_url(reference) {
        if m.urls.dom().contains(reference) {
            Some(m.urls[reference])
        } else {
            None
        }
    } else {
        if m.files.dom().contains(reference) {
            Some(m.files[reference])
        } else {
            None
        }
    }
}

/// The injected collaborators the engine runs against: a filesystem
/// transport, a network transport, and a per-format document parser. The
/// engine itself implements none of them; retry and backoff policy, if any,
/// live behind this boundary.
pub trait TargetRuntime: Sized {
    /// The snapshot this runtime answers from.
    spec fn model(&self) -> RtModel;

    /// How many transport fetches have been performed.
    spec fn io_count(&self) -> nat;

    /// The snapshot holds finitely many sources.
    proof fn model_finite(&self)
        ensures
            self.model().files.dom().finite(),
            self.model().urls.dom().finite(),
    ;

    /// Reads a local file. Succeeds exactly on the paths the snapshot holds,
    /// and delivers their content.
    fn read_file(&mut self, path: &String) -> (r: Result<String, IoError>)
        ensures
            final(self).model() == old(self).model(),
            final(self).io_count() == old(self).io_count() + 1,
            r is Ok <==> old(self).model().files.dom().contains(path@),
            r is Ok ==> r->Ok_0@ == old(self).model().files[path@],
    ;

    /// Fetches a URL. Succeeds exactly on the URLs the snapshot holds, and
    /// delivers their content.
    fn fetch_url(&mut self, url: &String) -> (r: Result<String, IoError>)
        ensures
            final(self).model() == old(self).model(),
            final(self).io_count() == old(self).io_count() + 1,
            r is Ok <==> old(self).model().urls.dom().contains(url@),
            r is Ok ==> r->Ok_0@ == old(self).model().urls[url@],
    ;

    /// Parses one document of the given format. Parsing is pure: the outcome
    /// is the model's verdict on the text, and no fetch is performed.
    fn parse_config(&self, source: Source, file: &String, text: &String) -> (r: Result<
        Config,
        ConfigError,
    >)
        ensures
            r is Ok <==> parse_of(self.model(), source, text@) is Some,
            r is Ok ==> r->Ok_0@ == parse_of(self.model(), source, text@)->0,
            r is Ok ==> r->Ok_0.wf(),
            r is Err ==> r->Err_0 is Syntax && r->Err_0.spec_reference() == file@,
    ;
}

} // verus!
