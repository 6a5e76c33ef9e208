//! An in-memory runtime: a fixed table of local files, URL bodies and parsed
//! documents, answering every call from one immutable snapshot. It backs
//! tests and offline resolution; real transports live outside the library.

use vstd::prelude::*;

use crate::assoc::{
    assoc_view, lemma_assoc_view_at, lemma_assoc_view_dom, lemma_assoc_view_len,
    lemma_assoc_view_push,
};
use crate::config::{Config, ConfigV};
use crate::error::{ConfigError, IoError};
use crate::runtime::{parse_of, RtModel, TargetRuntime};
use crate::source::Source;

verus! {

/// A runtime answering from fixed in-memory tables.
pub struct MemoryRuntime {
    files: Vec<(String, String)>,
    urls: Vec<(String, String)>,
    configs: Vec<(String, Config)>,
    fetches: Ghost<nat>,
}

impl MemoryRuntime {
    /// Every stored document is unambiguous.
    #[verifier::type_invariant]
    spec fn type_wf(&self) -> bool {
        forall|i: int| 0 <= i < self.configs@.len() ==> (#[trigger] self.configs@[i]).1.wf()
    }

    /// Returns a runtime with empty tables.
    pub fn new() -> (r: MemoryRuntime)
        ensures
            r.model().files == Map::<Seq<char>, Seq<char>>::empty(),
            r.model().urls == Map::<Seq<char>, Seq<char>>::empty(),
            r.model().parse == Map::<(Source, Seq<char>), ConfigV>::empty(),
            r.io_count() == 0,
    {
        let r = MemoryRuntime {
            files: Vec::new(),
            urls: Vec::new(),
            configs: Vec::new(),
            fetches: Ghost(0),
        };
        proof {
            assert(r.model().files =~= Map::<Seq<char>, Seq<char>>::empty());
            assert(r.model().urls =~= Map::<Seq<char>, Seq<char>>::empty());
            assert(r.model().parse =~= Map::<(Source, Seq<char>), ConfigV>::empty());
        }
        r
    }

    /// Adds a local file to the snapshot.
    pub fn with_file(self, path: String, content: String) -> (r: MemoryRuntime)
        ensures
            r.model().files == self.model().files.insert(path@, content@),
            r.model().urls == self.model().urls,
            r.model().parse == self.model().parse,
            r.io_count() == self.io_count(),
    {
        proof {
            use_type_invariant(&self);
            lemma_assoc_view_push(self.files@, (path, content));
        }
        let MemoryRuntime { mut files, urls, configs, fetches } = self;
        files.push((path, content));
        let r = MemoryRuntime { files, urls, configs, fetches };
        proof {
            assert(r.model() =~= RtModel { files: r.model().files, ..r.model() });
        }
        r
    }

    /// Adds a URL body to the snapshot.
    pub fn with_url(self, url: String, content: String) -> (r: MemoryRuntime)
        ensures
            r.model().urls == self.model().urls.insert(url@, content@),
            r.model().files == self.model().files,
            r.model().parse == self.model().parse,
            r.io_count() == self.io_count(),
    {
        proof {
            use_type_invariant(&self);
            lemma_assoc_view_push(self.urls@, (url, content));
        }
        let MemoryRuntime { files, mut urls, configs, fetches } = self;
        urls.push((url, content));
        MemoryRuntime { files, urls, configs, fetches }
    }

    /// Adds a parse entry: any document with this text parses to the given
    /// configuration, whatever its format.
    pub fn with_config(self, text: String, config: Config) -> (r: MemoryRuntime)
        requires
            config.wf(),
        ensures
            r.model().files == self.model().files,
            r.model().urls == self.model().urls,
            forall|s: Source| #[trigger]
                parse_of(r.model(), s, text@) == Some(config@),
            forall|s: Source, t: Seq<char>|
                t != text@ ==> #[trigger] parse_of(r.model(), s, t) == parse_of(self.model(), s, t),
            r.io_count() == self.io_count(),
    {
        proof {
            use_type_invariant(&self);
            lemma_assoc_view_push(self.configs@, (text, config));
        }
        let ghost pre = self;
        let MemoryRuntime { files, urls, mut configs, fetches } = self;
        configs.push((text, config));
        let r = MemoryRuntime { files, urls, configs, fetches };
        proof {
            assert forall|i: int| 0 <= i < r.configs@.len()
                implies (#[trigger] r.configs@[i]).1.wf() by {
                if i < r.configs@.len() - 1 {
                    assert(r.configs@[i] == pre.configs@[i]);
                }
            }
        }
        r
    }
}

impl TargetRuntime for MemoryRuntime {
    closed spec fn model(&self) -> RtModel {
        RtModel {
            files: assoc_view(self.files@),
            urls: assoc_view(self.urls@),
            parse: Map::new(
                |k: (Source, Seq<char>)| assoc_view(self.configs@).dom().contains(k.1),
                |k: (Source, Seq<char>)| assoc_view(self.configs@)[k.1],
            ),
        }
    }

    closed spec fn io_count(&self) -> nat {
        self.fetches@
    }

    proof fn model_finite(&self) {
        lemma_assoc_view_len(self.files@);
        lemma_assoc_view_len(self.urls@);
    }

    fn read_file(&mut self, path: &String) -> (r: Result<String, IoError>) {
        proof {
            use_type_invariant(&*self);
        }
        self.fetches = Ghost(self.fetches@ + 1);
        match crate::assoc::assoc_get(&self.files, path) {
            Some(content) => Ok(content.clone()),
            None => Err(IoError::NotFound),
        }
    }

    fn fetch_url(&mut self, url: &String) -> (r: Result<String, IoError>) {
        proof {
            use_type_invariant(&*self);
        }
        self.fetches = Ghost(self.fetches@ + 1);
        match crate::assoc::assoc_get(&self.urls, url) {
            Some(content) => Ok(content.clone()),
            None => Err(IoError::NetworkError),
        }
    }

    #[verifier::loop_isolation(false)]
    fn parse_config(&self, source: Source, file: &String, text: &String) -> (r: Result<
        Config,
        ConfigError,
    >) {
        proof {
            use_type_invariant(&*self);
            lemma_assoc_view_dom(self.configs@);
        }
        let mut i: usize = self.configs.len();
        while i > 0
            invariant
                i <= self.configs.len(),
                forall|j: int| i <= j < self.configs@.len() ==> self.configs@[j].0@ != text@,
            decreases i,
        {
            i -= 1;
            if self.configs[i].0 == *text {
                proof {
                    lemma_assoc_view_at(self.configs@, i as int);
                }
                return Ok(self.configs[i].1.clone());
            }
        }
        Err(ConfigError::Syntax {
            file: file.clone(),
            message: String::from_str("the document cannot be parsed"),
        })
    }
}

} // verus!
