use vstd::prelude::*;
use vstd::string::StringExecFns;

verus! {

/// Error raised when a predicate expression cannot be parsed.
#[derive(Debug)]
pub struct MatcherParseError {
    pub msg: String,
}

impl MatcherParseError {
    pub fn new(e: String) -> (r: MatcherParseError)
        ensures
            r.msg@ == e@,
    {
        MatcherParseError { msg: e }
    }

    /// A human-readable description of the parse failure.
    pub fn message(&self) -> (r: String)
        ensures
            r@ == self.msg@,
    {
        self.msg.clone()
    }
}

impl PartialEq for MatcherParseError {
    fn eq(&self, other: &Self) -> (r: bool) {
        self.msg == other.msg
    }
}

impl vstd::std_specs::cmp::PartialEqSpecImpl for MatcherParseError {
    open spec fn obeys_eq_spec() -> bool {
        true
    }

    open spec fn eq_spec(&self, other: &Self) -> bool {
        self.msg@ == other.msg@
    }
}

/// Configuration-time failures: bad documents, bad references, bad expressions.
#[derive(Debug)]
pub enum ConfigError {
    /// A free-form failure message.
    Message(String),
    /// A route refers to an upstream id that the registry does not hold.
    UpstreamNotFound(String),
    /// An upstream names a load-balancing strategy that does not exist.
    UnknownLBStrategy(String),
    /// A predicate expression failed to parse.
    MatcherParse(MatcherParseError),
    /// An endpoint address could not be parsed as a URI.
    UriParse(String),
    /// A configuration file extension that no decoder handles.
    UnsupportedFile,
}

impl ConfigError {
    /// A human-readable description of the failure.
    pub fn message(&self) -> (r: String)
        ensures
            self is UpstreamNotFound ==> r@ == "upstream<"@ + self->UpstreamNotFound_0@
                + "> not found"@,
            self is UnknownLBStrategy ==> r@ == "unknown strategy<"@
                + self->UnknownLBStrategy_0@ + ">"@,
            self is Message ==> r@ == self->Message_0@,
            self is MatcherParse ==> r@ == self->MatcherParse_0.msg@,
            self is UriParse ==> r@ == self->UriParse_0@,
            self is UnsupportedFile ==> r@ == "file format not support"@,
    {
        match self {
            ConfigError::Message(s) => s.clone(),
            ConfigError::UpstreamNotFound(s) => {
                let mut m = String::from_str("upstream<");
                m.append(s.as_str());
                m.append("> not found");
                m
            },
            ConfigError::UnknownLBStrategy(s) => {
                let mut m = String::from_str("unknown strategy<");
                m.append(s.as_str());
                m.append(">");
                m
            },
            ConfigError::MatcherParse(e) => e.message(),
            ConfigError::UriParse(s) => s.clone(),
            ConfigError::UnsupportedFile => String::from_str("file format not support"),
        }
    }
}

/// The gateway's request-path error: transport, configuration, or internal.
#[derive(Debug)]
pub enum Error {
    Io(String),
    Http(String),
    Config(ConfigError),
    Message(String),
}

/// The error that the configuration loader raises on an unknown file extension.
pub fn unsupport_file() -> (r: ConfigError)
    ensures
        r is UnsupportedFile,
{
    ConfigError::UnsupportedFile
}

/// The error that the registry raises when a route points at a missing upstream.
pub fn upstream_not_found(upstream: &str) -> (r: ConfigError)
    ensures
        r is UpstreamNotFound && r->UpstreamNotFound_0@ == upstream@,
{
    ConfigError::UpstreamNotFound(String::from_str(upstream))
}

} // verus!
