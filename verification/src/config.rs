//! The process context: where the two trees are, and whether to log.

use vstd::prelude::*;
use crate::path::{bytes_of, is_absolute, is_relative};

verus! {

/// The value of the debug variable that switches diagnostics on: the one
/// character `1`.
pub open spec fn debug_on() -> Seq<u8> {
    seq![0x31u8]
}

/// The directories of the overlay and the debug switch. It is made once,
/// before the first decision, and read from then on. Both directories of a
/// context are absolute paths: `from_env` makes no other, and a value put
/// together by hand that is not `valid` redirects nothing.
#[derive(Debug)]
pub struct Config {
    /// The read-mostly tree that requests name.
    pub lower_dir: Vec<u8>,
    /// The writable tree that shadows it.
    pub upper_dir: Vec<u8>,
    /// Whether diagnostics are wanted.
    pub debug: bool,
}

/// A `Config` as plain values.
pub struct ConfigView {
    pub lower_dir: Seq<u8>,
    pub upper_dir: Seq<u8>,
    pub debug: bool,
}

impl View for Config {
    type V = ConfigView;

    open spec fn view(&self) -> ConfigView {
        ConfigView { lower_dir: self.lower_dir@, upper_dir: self.upper_dir@, debug: self.debug }
    }
}

impl ConfigView {
    /// What makes a context: both of its directories are absolute paths.
    pub open spec fn valid(self) -> bool {
        is_absolute(self.lower_dir) && is_absolute(self.upper_dir)
    }
}

/// The context that a decision sees, as plain values.
pub open spec fn context_of(config: Option<&Config>) -> Option<ConfigView> {
    match config {
        Some(config) => Some(config@),
        None => None,
    }
}

/// The context that an owner of one sees, as plain values.
pub open spec fn context_in(context: Option<Config>) -> Option<ConfigView> {
    match context {
        Some(config) => Some(config@),
        None => None,
    }
}

/// The context that the three settings give: one exists where both
/// directories are set and both are absolute paths, and it logs where the
/// debug setting is exactly `1`.
pub open spec fn configured(
    lower_dir: Option<Seq<u8>>,
    upper_dir: Option<Seq<u8>>,
    debug: Option<Seq<u8>>,
) -> Option<ConfigView> {
    match (lower_dir, upper_dir) {
        (Some(lower_dir), Some(upper_dir)) => {
            if is_absolute(lower_dir) && is_absolute(upper_dir) {
                Some(ConfigView { lower_dir, upper_dir, debug: debug == Some(debug_on()) })
            } else {
                None
            }
        },
        _ => None,
    }
}

/// Diagnostics are wanted: there is a context, and its debug switch is on.
pub open spec fn debug_enabled(context: Option<ConfigView>) -> bool {
    match context {
        Some(config) => config.debug,
        None => false,
    }
}

impl Config {
    /// Builds the context from the values of the three settings, each
    /// `None` where it is not set.
    ///
    /// Without a lower or an upper directory there is no context, and there
    /// is none where one of them is not an absolute path. Every decision
    /// made without a context leaves its request alone, and nothing is
    /// logged.
    pub fn from_env(
        lower_dir: Option<Vec<u8>>,
        upper_dir: Option<Vec<u8>>,
        debug: Option<Vec<u8>>,
    ) -> (config: Option<Config>)
        ensures
            context_in(config) == configured(
                bytes_of(lower_dir),
                bytes_of(upper_dir),
                bytes_of(debug),
            ),
            config matches Some(made) ==> made@.valid(),
    {
        let lower_dir = match lower_dir {
            Some(path) => path,
            None => {
                return None;
            },
        };
        let upper_dir = match upper_dir {
            Some(path) => path,
            None => {
                return None;
            },
        };
        if is_relative(lower_dir.as_slice()) || is_relative(upper_dir.as_slice()) {
            return None;
        }
        let debug = match debug {
            Some(value) => {
                assert(value@ == debug_on() <==> value@.len() == 1 && value@[0] == 0x31) by {
                    if value@.len() == 1 && value@[0] == 0x31 {
                        assert(value@ =~= debug_on());
                    }
                }
                value.len() == 1 && value[0] == 0x31
            },
            None => false,
        };
        Some(Config { lower_dir, upper_dir, debug })
    }
}

/// The context in force, if there is one.
pub fn get_config(context: &Option<Config>) -> (config: Option<&Config>)
    ensures
        match (config, *context) {
            (Some(found), Some(held)) => *found == held,
            (None, None) => true,
            _ => false,
        },
{
    context.as_ref()
}

/// Runs `callback` where diagnostics are wanted, and only there.
///
/// The callback is not called in a context without debug, or without a
/// context, so it needs to be callable only where debug is on.
pub fn if_debug<F: FnOnce()>(config: Option<&Config>, callback: F)
    requires
        debug_enabled(context_of(config)) ==> callback.requires(()),
    ensures
        debug_enabled(context_of(config)) ==> callback.ensures((), ()),
{
    let enabled = match config {
        Some(config) => config.debug,
        None => false,
    };
    if enabled {
        callback()
    }
}

} // verus!
