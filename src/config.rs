use vstd::prelude::*;

verus! {

/// Why the schedule source could not be loaded.
#[derive(Debug)]
pub enum ConfigError {
    CantGetHomeDir,
    CantOpenConfig(String),
    CantRead(String),
    CantParse(String),
}

/// One entry of the schedule source: a time string and the wallpaper to show from then on.
#[derive(Debug)]
pub struct TimeWalpapperConfig {
    time: String,
    wallpapper: String,
}

impl TimeWalpapperConfig {
    pub fn new(time: String, wallpapper: String) -> (r: TimeWalpapperConfig)
        ensures
            r.time_view() == time@,
            r.wallpapper_view() == wallpapper@,
    {
        TimeWalpapperConfig { time, wallpapper }
    }

    pub closed spec fn time_view(&self) -> Seq<char> {
        self.time@
    }

    pub closed spec fn wallpapper_view(&self) -> Seq<char> {
        self.wallpapper@
    }

    pub fn time(&self) -> (r: &str)
        ensures
            r@ == self.time_view(),
    {
        self.time.as_str()
    }

    pub fn wallpapper(&self) -> (r: &str)
        ensures
            r@ == self.wallpapper_view(),
    {
        self.wallpapper.as_str()
    }
}

/// The schedule source as it was read: entries in the order they were written.
#[derive(Debug)]
pub struct Config {
    plan: Vec<TimeWalpapperConfig>,
}

impl Config {
    pub fn from_plan(plan: Vec<TimeWalpapperConfig>) -> (r: Config)
        ensures
            r.plan_view() == plan@,
    {
        Config { plan }
    }

    pub closed spec fn plan_view(&self) -> Seq<TimeWalpapperConfig> {
        self.plan@
    }

    pub fn plan(&self) -> (r: &[TimeWalpapperConfig])
        ensures
            r@ == self.plan_view(),
    {
        self.plan.as_slice()
    }
}

} // verus!
