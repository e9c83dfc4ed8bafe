//! Configuration of a document build and the document's own metadata.

use vstd::prelude::*;
use crate::text::texts;

verus! {

/// What the registry does when two structurally different shapes ask for
/// the same schema name.
#[derive(Clone, Copy, Debug, PartialEq, Eq, Structural)]
pub enum CollisionPolicy {
    /// Abort the build with a naming-collision error.
    Fail,
    /// Give the later shape the name with a numeric suffix.
    Mangle,
}

/// Settings that steer how a document is generated.
#[derive(Clone, Debug, PartialEq, Eq)]
pub struct Settings {
    /// How a schema name collision is resolved.
    pub collision_policy: CollisionPolicy,
    /// The content type of request bodies, and of responses that name none.
    pub default_content_type: String,
}

/// The mathematical value of [`Settings`].
pub struct SettingsView {
    pub collision_policy: CollisionPolicy,
    pub default_content_type: Seq<char>,
}

impl View for Settings {
    type V = SettingsView;

    open spec fn view(&self) -> SettingsView {
        SettingsView {
            collision_policy: self.collision_policy,
            default_content_type: self.default_content_type@,
        }
    }
}

impl Settings {
    /// Settings that fail on a naming collision and describe bodies as JSON.
    pub fn new() -> (out: Settings)
        ensures
            out@.collision_policy == CollisionPolicy::Fail,
            out@.default_content_type == "application/json"@,
    {
        Settings {
            collision_policy: CollisionPolicy::Fail,
            default_content_type: "application/json".to_owned(),
        }
    }

    /// The same settings with another collision policy.
    pub fn with_collision_policy(self, policy: CollisionPolicy) -> (out: Settings)
        ensures
            out@.collision_policy == policy,
            out@.default_content_type == self@.default_content_type,
    {
        Settings { collision_policy: policy, default_content_type: self.default_content_type }
    }

    /// The same settings with another default content type.
    pub fn with_default_content_type(self, content_type: &str) -> (out: Settings)
        ensures
            out@.collision_policy == self@.collision_policy,
            out@.default_content_type == content_type@,
    {
        Settings {
            collision_policy: self.collision_policy,
            default_content_type: content_type.to_owned(),
        }
    }
}

impl Default for Settings {
    fn default() -> (out: Settings)
        ensures
            out@.collision_policy == CollisionPolicy::Fail,
            out@.default_content_type == "application/json"@,
    {
        Settings::new()
    }
}

/// The top-level metadata of a document.
#[derive(Clone, Debug, PartialEq, Eq)]
pub struct Metadata {
    /// The title of the described API.
    pub title: String,
    /// The version of the described API.
    pub version: String,
    /// The URLs of the servers that host the API.
    pub servers: Vec<String>,
}

/// The mathematical value of [`Metadata`].
pub struct MetadataView {
    pub title: Seq<char>,
    pub version: Seq<char>,
    pub servers: Seq<Seq<char>>,
}

impl View for Metadata {
    type V = MetadataView;

    open spec fn view(&self) -> MetadataView {
        MetadataView { title: self.title@, version: self.version@, servers: texts(self.servers@) }
    }
}

impl Metadata {
    /// Metadata with the given title and version and no servers.
    pub fn new(title: &str, version: &str) -> (out: Metadata)
        ensures
            out@.title == title@,
            out@.version == version@,
            out@.servers == Seq::<Seq<char>>::empty(),
    {
        let out = Metadata { title: title.to_owned(), version: version.to_owned(), servers: Vec::new() };
        assert(out@.servers =~= Seq::<Seq<char>>::empty());
        out
    }

    /// The same metadata with one more server URL at the end.
    pub fn with_server(self, url: &str) -> (out: Metadata)
        ensures
            out@.title == self@.title,
            out@.version == self@.version,
            out@.servers == self@.servers.push(url@),
    {
        let mut servers = self.servers;
        servers.push(url.to_owned());
        let out = Metadata { title: self.title, version: self.version, servers };
        assert(out@.servers =~= self@.servers.push(url@));
        out
    }
}

} // verus!
