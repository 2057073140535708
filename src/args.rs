use vstd::prelude::*;

verus! {

broadcast use vstd::string::group_string_axioms;

/// The command line: the configuration file and the worker count. An empty
/// path and a count of 255 stand for "not given".
pub struct Options {
    pub config: String,
    pub threads: u8,
}

impl Options {
    /// Fills in what was not given: the configuration file defaults to
    /// `config.json`, the worker count to the `available` parallelism, kept
    /// between 1 and 255.
    pub fn with_defaults(self, available: usize) -> (r: Options)
        ensures
            self.config@.len() == 0 ==> r.config@ == seq!['c', 'o', 'n', 'f', 'i', 'g', '.', 'j', 's', 'o', 'n'],
            self.config@.len() > 0 ==> r.config@ == self.config@,
            self.threads != 255 ==> r.threads == self.threads,
            self.threads == 255 ==> r.threads as int == if available == 0 {
                1
            } else if available > 255 {
                255
            } else {
                available as int
            },
    {
        proof {
            reveal_strlit("config.json");
        }
        let config = if self.config.as_str().unicode_len() == 0 {
            "config.json".to_owned()
        } else {
            self.config
        };
        let threads: u8 = if self.threads != 255 {
            self.threads
        } else if available == 0 {
            1
        } else if available > 255 {
            255
        } else {
            available as u8
        };
        Options { config, threads }
    }
}

} // verus!
