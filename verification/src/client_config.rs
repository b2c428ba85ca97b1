//! Client-side configuration: which local directories to back up and where
//! the server listens.

use vstd::prelude::*;

verus! {

/// The client's settings, as read from its configuration file.
#[derive(Debug, Clone)]
pub struct Configuration {
    pub backup_paths: Vec<String>,
    pub server_host: String,
    pub server_port: u16,
}

/// A source of client configuration. The library ships no decoder of its
/// own: the embedding program implements this for whatever format it
/// loads, and hands the library plain values.
pub trait ConfigReader {
    type Error;

    fn read_config(&mut self) -> Result<Configuration, Self::Error>;
}

/// Wraps a source of YAML text. Decoding it into a `Configuration` runs
/// through serde's `Deserializer`, so the `ConfigReader` impl lives with
/// the embedding program.
#[derive(Debug)]
pub struct YamlReader<R> {
    inner: R,
}

impl<R> YamlReader<R> {
    /// The wrapped source of YAML text.
    pub closed spec fn source(&self) -> R {
        self.inner
    }

    pub fn new(inner: R) -> (r: YamlReader<R>)
        ensures
            r.source() == inner,
    {
        YamlReader { inner }
    }

    /// Hands the wrapped source back, for the program that decodes it.
    pub fn into_inner(self) -> (r: R)
        ensures
            r == self.source(),
    {
        self.inner
    }
}

} // verus!
