//! The run configuration handed in by the host shell, and the choice of
//! the destination directory a run writes into.

use vstd::prelude::*;
use crate::paths::{basename_of, file_name, join_under};
use crate::rules::{WordPair, TextService, views_of, expanded};

verus! {

/// What a run is asked to do: where to read, where to write, how to name
/// the destination, and which rules to apply. Validated and defaulted by
/// the host before it reaches the engine.
pub struct ProcessConfig {
    /// Source directory path.
    pub source: String,
    /// Destination directory path.
    pub destination: String,
    /// Whether to create a subfolder under the destination.
    pub create_subfolder: bool,
    /// A custom subfolder name, when one is configured.
    pub folder_name: Option<String>,
    /// Whether the subfolder is named by the current timestamp instead.
    pub use_timestamp: bool,
    /// Whether to expand the rules with case variants.
    pub variants: bool,
    /// Whether to rename files and directories after replacement.
    pub rename: bool,
    /// The ordered substitution rules.
    pub pairs: Vec<WordPair>,
    /// An explicit list of relative paths to restrict replacement to,
    /// bypassing a fresh walk of the destination.
    pub filter_paths: Option<Vec<String>>,
}

/// Relies on `chrono::Local::now` and its `%Y%m%d_%H%M%S` format: a compact
/// year-to-second stamp for naming a destination subfolder. The value
/// depends on the clock, so nothing is promised of it.
#[verifier::external_body]
fn now_timestamp() -> String {
    chrono::Local::now().format("%Y%m%d_%H%M%S").to_string()
}

impl ProcessConfig {
    /// The subfolder name of a run: the timestamp when one is requested,
    /// else the configured name, else the source's own file name.
    pub open spec fn subfolder_name_spec(self, ts: Seq<char>) -> Seq<char> {
        if self.use_timestamp {
            ts
        } else if self.folder_name is Some {
            self.folder_name->0@
        } else {
            basename_of(self.source@)
        }
    }

    /// The chosen subfolder name, with `ts` standing in for the clock.
    pub fn subfolder_name(&self, ts: String) -> (r: String)
        ensures
            r@ == self.subfolder_name_spec(ts@),
    {
        if self.use_timestamp {
            ts
        } else {
            match &self.folder_name {
                Some(n) => n.clone(),
                None => file_name(self.source.as_str()),
            }
        }
    }

    /// The directory that receives the transformed tree: the destination
    /// itself, or `destination/name` with the chosen subfolder name. When
    /// the name comes from the clock, only the parent part is pinned.
    pub fn dest_dir(&self) -> (r: String)
        ensures
            !self.create_subfolder ==> r@ == self.destination@,
            self.create_subfolder && !self.use_timestamp ==> r@ == self.destination@ + seq!['/']
                + self.subfolder_name_spec(Seq::empty()),
            self.create_subfolder && self.use_timestamp ==> exists|ts: Seq<char>|
                r@ == self.destination@ + seq!['/'] + ts,
    {
        if !self.create_subfolder {
            return self.destination.clone();
        }
        let name = self.subfolder_name(now_timestamp());
        let r = join_under(self.destination.as_str(), name.as_str());
        proof {
            if self.use_timestamp {
                assert(r@ == self.destination@ + seq!['/'] + name@);
            }
        }
        r
    }

    /// The rules a run applies: the configured pairs, case-expanded when
    /// variant expansion is requested.
    pub fn effective_pairs(&self) -> (r: Vec<WordPair>)
        ensures
            self.variants ==> views_of(r@) == expanded(views_of(self.pairs@)),
            !self.variants ==> r@ == self.pairs@,
    {
        if self.variants {
            TextService::expand_variants(self.pairs.as_slice())
        } else {
            let mut r: Vec<WordPair> = Vec::new();
            let mut k: usize = 0;
            while k < self.pairs.len()
                invariant
                    0 <= k <= self.pairs@.len(),
                    r@.len() == k,
                    forall|j: int| 0 <= j < k ==> r@[j] == self.pairs@[j],
                decreases self.pairs@.len() - k,
            {
                r.push(WordPair { old: self.pairs[k].old.clone(), new: self.pairs[k].new.clone() });
                k = k + 1;
            }
            proof {
                assert(r@ =~= self.pairs@);
            }
            r
        }
    }
}

} // verus!
