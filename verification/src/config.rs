//! The configuration file, read once per path however often it is asked for.

use vstd::prelude::*;

verus! {

/// What the configuration file says.
#[derive(Debug)]
pub struct FileConfig {
    /// The flake the commands work on, where the command line names none.
    pub flake: Option<String>,
}

/// What the configuration file said, or why it could not be read.
pub type ConfigOutcome = Result<FileConfig, String>;

/// The one configuration that was loaded, remembered with the path it came
/// from; once something is remembered it is never replaced.
pub struct ConfigCache {
    entry: Option<(String, ConfigOutcome)>,
}

fn copy_text(s: &Option<String>) -> (r: Option<String>)
    ensures
        r == *s,
{
    match s {
        Some(t) => Some(t.clone()),
        None => None,
    }
}

/// The same outcome again.
fn copy_outcome(outcome: &ConfigOutcome) -> (r: ConfigOutcome)
    ensures
        r == *outcome,
{
    match outcome {
        Ok(config) => Ok(config.copy()),
        Err(e) => Err(e.clone()),
    }
}

impl FileConfig {
    /// The same configuration again.
    pub fn copy(&self) -> (r: FileConfig)
        ensures
            r == *self,
    {
        FileConfig { flake: copy_text(&self.flake) }
    }

    /// The flake the configuration names, which becomes the default for the
    /// command line's own, no longer required there.
    pub fn default_flake(&self) -> (r: Option<String>)
        ensures
            r == self.flake,
    {
        copy_text(&self.flake)
    }

    /// The configuration at `path`: what was remembered for it, where the path
    /// is the one remembered, and otherwise what `read` makes of the file,
    /// remembered in turn if nothing was before.
    ///
    /// The command line is read more than once, and each reading asks again;
    /// a file read once answers every later asking the same way.
    pub fn load<F: Fn(&str) -> ConfigOutcome>(cache: &mut ConfigCache, path: &str, read: F) -> (r: ConfigOutcome)
        requires
            forall|p: &str| call_requires(read, (p,)),
        ensures
            match old(cache).entry() {
                Some((cached, outcome)) => if cached == path@ {
                    r == outcome && *final(cache) == *old(cache)
                } else {
                    call_ensures(read, (path,), r) && *final(cache) == *old(cache)
                },
                None => call_ensures(read, (path,), r) && final(cache).entry() == Some((path@, r)),
            },
    {
        let wanted = path.to_owned();
        if let Some((cached, outcome)) = &cache.entry {
            if *cached == wanted {
                return copy_outcome(outcome);
            }
        }
        let result = read(path);
        if cache.entry.is_none() {
            cache.entry = Some((wanted, copy_outcome(&result)));
        }
        result
    }
}

impl ConfigCache {
    /// Nothing remembered yet.
    pub fn new() -> (r: ConfigCache)
        ensures
            r.entry() is None,
    {
        ConfigCache { entry: None }
    }

    /// The path remembered, and what was read from it.
    pub closed spec fn entry(&self) -> Option<(Seq<char>, ConfigOutcome)> {
        match self.entry {
            Some((p, o)) => Some((p@, o)),
            None => None,
        }
    }
}

} // verus!
