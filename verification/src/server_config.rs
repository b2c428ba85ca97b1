//! Server-side configuration: where the storage backend keeps its files.

use vstd::prelude::*;

verus! {

/// The server's settings, as read from its configuration file.
#[derive(Debug, Clone)]
pub struct Configuration {
    pub storage_path: String,
}

/// A source of server configuration. The library ships no decoder of its
/// own: the embedding program implements this for whatever format it
/// loads, and hands the library plain values.
pub trait ConfigReader {
    type Error;

    fn read_config(&mut self) -> Result<Configuration, Self::Error>;
}

/// Wraps a source of YAML text. Decoding it into a `Configuration` runs
/// through serde's `Deserializer`, so the `ConfigReader` impl lives with
/// the embedding program.
#[derive(Debug)]
pub struct YamlReader<R> {
    inner: R,
}

impl<R> YamlReader<R> {
    /// The wrapped source of YAML text.
    pub closed spec fn source(&self) -> R {
        self.inner
    }

    pub fn new(inner: R) -> (r: YamlReader<R>)
        ensures
            r.source() == inner,
    {
        YamlReader { inner }
    }

    /// Hands the wrapped source back, for the program that decodes it.
    pub fn into_inner(self) -> (r: R)
        ensures
            r == self.source(),
    {
        self.inner
    }
}

} // verus!
