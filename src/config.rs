use vstd::prelude::*;

verus! {

/// One swept parameter: its name and the walk of its values, each a count of
/// thousandths.
pub struct VariableConfig {
    pub name: String,
    pub start: i64,
    pub end: i64,
    pub step: i64,
}

/// A sweep: the template program, the parameters, where the per-task files
/// go, where the best result is kept, and the numeric argument handed to the
/// evaluated program.
pub struct Config {
    pub script: String,
    pub variables: Vec<VariableConfig>,
    pub logs_dir: String,
    pub state_file: String,
    pub round: u8,
}

} // verus!
