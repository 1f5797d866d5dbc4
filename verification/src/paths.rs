//! Canonical filesystem locations, derived from the home directory.

use crate::error::AppError;
use vstd::prelude::*;

verus! {

/// `a` and `b` joined with a single path separator.
pub open spec fn path_join(a: Seq<char>, b: Seq<char>) -> Seq<char> {
    if a.len() > 0 && a.last() == '/' {
        a + b
    } else {
        a + seq!['/'] + b
    }
}

/// Join two path fragments.
pub fn path_join_exec(a: &str, b: &str) -> (r: String)
    ensures
        r@ == path_join(a@, b@),
{
    let mut out = a.to_owned();
    let n = a.unicode_len();
    if n == 0 || a.get_char(n - 1) != '/' {
        out.push('/');
    }
    out.append(b);
    proof {
        assert(out@ =~= path_join(a@, b@));
    }
    out
}

/// The per-user configuration directory under a home directory.
pub open spec fn config_dir_of(home: Seq<char>) -> Seq<char> {
    path_join(path_join(home, ".config"@), "mms"@)
}

/// The abstract value of a path set.
pub struct PathsV {
    pub home: Seq<char>,
    pub config_dir: Seq<char>,
}

/// Resolves the canonical filesystem locations used by the tool.
#[derive(Debug)]
pub struct MmsPaths {
    pub home: String,
    pub config_dir: String,
}

impl View for MmsPaths {
    type V = PathsV;

    open spec fn view(&self) -> PathsV {
        PathsV { home: self.home@, config_dir: self.config_dir@ }
    }
}

impl MmsPaths {
    /// Build the path set from the home directory, which the environment
    /// must provide; its absence is a configuration error.
    pub fn new(home: Option<String>) -> (r: Result<MmsPaths, AppError>)
        ensures
            match r {
                Ok(p) => home is Some && p@.home == home->Some_0@ && p@.config_dir
                    == config_dir_of(home->Some_0@),
                Err(e) => home is None && e is Config,
            },
    {
        match home {
            None => Err(AppError::Config("HOME environment variable not set".to_owned())),
            Some(h) => {
                let c = path_join_exec(h.as_str(), ".config");
                let config_dir = path_join_exec(c.as_str(), "mms");
                Ok(MmsPaths { home: h, config_dir })
            },
        }
    }

    /// The home directory.
    pub fn home(&self) -> (r: &String)
        ensures
            r@ == self@.home,
    {
        &self.home
    }

    /// The tool's configuration directory.
    pub fn config_dir(&self) -> (r: &String)
        ensures
            r@ == self@.config_dir,
    {
        &self.config_dir
    }

    /// Where the master catalogue copy lives.
    pub fn master_catalogue_path(&self) -> (r: String)
        ensures
            r@ == path_join(self@.config_dir, "master.json"@),
    {
        path_join_exec(self.config_dir.as_str(), "master.json")
    }

    /// Where the per-user catalogue lives.
    pub fn global_catalogue_path(&self) -> (r: String)
        ensures
            r@ == path_join(self@.home, ".mcp.json"@),
    {
        path_join_exec(self.home.as_str(), ".mcp.json")
    }

    /// The external TOML tool's directory.
    pub fn codex_dir(&self) -> (r: String)
        ensures
            r@ == path_join(self@.home, ".codex"@),
    {
        path_join_exec(self.home.as_str(), ".codex")
    }

    /// The external TOML tool's configuration file.
    pub fn codex_config_path(&self) -> (r: String)
        ensures
            r@ == path_join(path_join(self@.home, ".codex"@), "config.toml"@),
    {
        let d = self.codex_dir();
        path_join_exec(d.as_str(), "config.toml")
    }
}

} // verus!
