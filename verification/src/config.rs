use vstd::prelude::*;

verus! {

/// Configuration options for the RLogic engine.
#[derive(Debug, Clone, Copy)]
pub struct RLogicConfig {
    /// Enable data mutation tracking (enabled by default).
    pub enable_tracking: bool,
    /// Safely ignore NaN errors in math operations (return 0 instead).
    pub safe_nan_handling: bool,
    /// Maximum recursion depth for evaluation.
    pub recursion_limit: usize,
    /// Timezone offset in minutes from UTC.
    pub timezone_offset: Option<i32>,
}

/// The recursion limit every preset starts from.
pub const DEFAULT_RECURSION_LIMIT: usize = 1000;

impl RLogicConfig {
    /// The default settings: tracking on, NaN safety off, limit 1000, no offset.
    pub open spec fn spec_default() -> RLogicConfig {
        RLogicConfig {
            enable_tracking: true,
            safe_nan_handling: false,
            recursion_limit: DEFAULT_RECURSION_LIMIT,
            timezone_offset: None,
        }
    }

    /// Create a new configuration with default settings.
    pub fn new() -> (res: Self)
        ensures
            res == Self::spec_default(),
    {
        Self::default()
    }

    /// Performance-optimized config (tracking disabled, no NaN safety).
    pub fn performance() -> (res: Self)
        ensures
            res == (RLogicConfig {
                enable_tracking: false,
                safe_nan_handling: false,
                recursion_limit: DEFAULT_RECURSION_LIMIT,
                timezone_offset: None,
            }),
    {
        RLogicConfig {
            enable_tracking: false,
            safe_nan_handling: false,
            recursion_limit: DEFAULT_RECURSION_LIMIT,
            timezone_offset: None,
        }
    }

    /// Safety-optimized config (all safety features enabled).
    pub fn safe() -> (res: Self)
        ensures
            res == (RLogicConfig {
                enable_tracking: true,
                safe_nan_handling: true,
                recursion_limit: DEFAULT_RECURSION_LIMIT,
                timezone_offset: None,
            }),
    {
        RLogicConfig {
            enable_tracking: true,
            safe_nan_handling: true,
            recursion_limit: DEFAULT_RECURSION_LIMIT,
            timezone_offset: None,
        }
    }

    /// Minimal config (all features disabled for maximum speed).
    pub fn minimal() -> (res: Self)
        ensures
            res == (RLogicConfig {
                enable_tracking: false,
                safe_nan_handling: false,
                recursion_limit: DEFAULT_RECURSION_LIMIT,
                timezone_offset: None,
            }),
    {
        RLogicConfig {
            enable_tracking: false,
            safe_nan_handling: false,
            recursion_limit: DEFAULT_RECURSION_LIMIT,
            timezone_offset: None,
        }
    }

    /// Builder: set whether mutation tracking is enabled; nothing else changes.
    pub fn with_tracking(self, enable: bool) -> (res: Self)
        ensures
            res == (RLogicConfig { enable_tracking: enable, ..self }),
    {
        let mut s = self;
        s.enable_tracking = enable;
        s
    }

    /// Builder: set NaN safety; nothing else changes.
    pub fn with_safe_nan(self, enable: bool) -> (res: Self)
        ensures
            res == (RLogicConfig { safe_nan_handling: enable, ..self }),
    {
        let mut s = self;
        s.safe_nan_handling = enable;
        s
    }

    /// Builder: set the recursion limit; nothing else changes.
    pub fn with_recursion_limit(self, limit: usize) -> (res: Self)
        ensures
            res == (RLogicConfig { recursion_limit: limit, ..self }),
    {
        let mut s = self;
        s.recursion_limit = limit;
        s
    }

    /// Builder: set the timezone offset (minutes from UTC); nothing else changes.
    pub fn with_timezone_offset(self, offset: i32) -> (res: Self)
        ensures
            res == (RLogicConfig { timezone_offset: Some(offset), ..self }),
    {
        let mut s = self;
        s.timezone_offset = Some(offset);
        s
    }
}

impl Default for RLogicConfig {
    fn default() -> (res: Self)
        ensures
            res == Self::spec_default(),
    {
        RLogicConfig {
            enable_tracking: true,
            safe_nan_handling: false,
            recursion_limit: DEFAULT_RECURSION_LIMIT,
            timezone_offset: None,
        }
    }
}

} // verus!
