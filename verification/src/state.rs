use crate::config::Config;
use crate::paths::{is_absolute, is_absolute_path, join_under, join_under_root};
use vstd::prelude::*;
use vstd::string::StringExecFns;

verus! {

/// Process-wide state: the configuration, and the served root as a full
/// path, fixed at startup.
#[derive(Debug, Clone)]
pub struct PuizcloudState {
    config: Config,
    full_data_path: String,
}

/// The abstract value of a `PuizcloudState`.
#[verifier::ext_equal]
pub struct StateView {
    pub config: Config,
    pub full_data_path: Seq<char>,
}

impl View for PuizcloudState {
    type V = StateView;

    closed spec fn view(&self) -> StateView {
        StateView { config: self.config, full_data_path: self.full_data_path@ }
    }
}

impl PuizcloudState {
    /// Anchors the configured data directory: a relative one is placed below
    /// the given working directory, an absolute one stands as it is.
    pub fn new(config: Config, current_dir: &str) -> (s: PuizcloudState)
        ensures
            s@.config == config,
            s@.full_data_path == if is_absolute(config.data@) {
                config.data@
            } else {
                join_under(current_dir@, config.data@)
            },
    {
        let full_data_path = if is_absolute_path(config.data_path()) {
            String::from_str(config.data_path())
        } else {
            join_under_root(current_dir, config.data_path())
        };
        PuizcloudState { config, full_data_path }
    }

    /// The configuration this state was made with.
    pub fn config(&self) -> (r: &Config)
        ensures
            *r == self@.config,
    {
        &self.config
    }

    /// The full path of the served root.
    pub fn full_data_path(&self) -> (r: &str)
        ensures
            r@ == self@.full_data_path,
    {
        self.full_data_path.as_str()
    }
}

} // verus!
