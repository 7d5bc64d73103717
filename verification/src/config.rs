//! The configuration object the core consumes: a data directory, an
//! optional image synchronization section, and an optional port.
//!
//! Loading the configuration from disk and parsing it is a collaborator's
//! job; the core only reads these values.

use vstd::prelude::*;

verus! {

/// Settings for synchronizing the images directory against a remote
/// bucket.
pub struct ConfigImageSync {
    pub bucket_name: String,
    pub google_application_credentials: String,
    pub object_prefix: String,
}

/// The configuration: where the pages live, how images synchronize, and
/// which port the server listens on.
pub struct Config {
    data_dir: String,
    image_sync: Option<ConfigImageSync>,
    port: Option<u16>,
}

/// The port used when the configuration names none.
pub const DEFAULT_PORT: u16 = 3000;

impl Config {
    /// The configured data directory.
    pub closed spec fn spec_data_dir(&self) -> Seq<char> {
        self.data_dir@
    }

    /// The configured port, if any.
    pub closed spec fn spec_port(&self) -> Option<u16> {
        self.port
    }

    /// Whether image synchronization is configured, and how.
    pub closed spec fn spec_image_sync(&self) -> Option<ConfigImageSync> {
        self.image_sync
    }

    /// Assemble a configuration from its parts.
    pub fn new(data_dir: String, image_sync: Option<ConfigImageSync>, port: Option<u16>) -> (r:
        Config)
        ensures
            r.spec_data_dir() == data_dir@,
            r.spec_image_sync() == image_sync,
            r.spec_port() == port,
    {
        Config { data_dir, image_sync, port }
    }

    /// The directory holding the pages.
    pub fn data_dir(&self) -> (r: &str)
        ensures
            r@ == self.spec_data_dir(),
    {
        self.data_dir.as_str()
    }

    /// The image synchronization settings, if configured.
    pub fn image_sync(&self) -> (r: Option<ConfigImageSync>)
        ensures
            match r {
                Some(s) => match self.spec_image_sync() {
                    Some(o) => s.bucket_name@ == o.bucket_name@
                        && s.google_application_credentials@ == o.google_application_credentials@
                        && s.object_prefix@ == o.object_prefix@,
                    None => false,
                },
                None => self.spec_image_sync() is None,
            },
    {
        match &self.image_sync {
            Some(s) => Some(
                ConfigImageSync {
                    bucket_name: s.bucket_name.clone(),
                    google_application_credentials: s.google_application_credentials.clone(),
                    object_prefix: s.object_prefix.clone(),
                },
            ),
            None => None,
        }
    }

    /// The directory holding the images: `images` under the data
    /// directory.
    pub fn images_dir(&self) -> (r: String)
        ensures
            r@ == self.spec_data_dir() + "/images"@,
    {
        let mut r = self.data_dir.clone();
        r.append("/images");
        r
    }

    /// The configured port, or the default when none is configured.
    pub fn port(&self) -> (r: u16)
        ensures
            r == match self.spec_port() {
                Some(p) => p,
                None => DEFAULT_PORT,
            },
    {
        match self.port {
            Some(p) => p,
            None => DEFAULT_PORT,
        }
    }
}

} // verus!
