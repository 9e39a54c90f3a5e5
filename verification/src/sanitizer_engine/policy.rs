use vstd::prelude::*;

use crate::sanitizer_engine::errors::LoggerError;
use crate::sanitizer_engine::log::LoggerTrait;
use crate::url::{parsed_host, Host};

verus! {

/// What to do about a finding.
#[derive(Clone, Copy, Debug, PartialEq, Eq, Structural)]
pub enum PolicyAction {
    Allow,
    Warn,
    Deny,
}

impl PolicyAction {
    /// `Allow` logs the error as information and `Warn` as a warning, and both go on;
    /// `Deny` gives the error back.
    pub fn handle_error<E: Into<LoggerError>, L: LoggerTrait>(self, logger: &L, error: E) -> (res: Result<(), E>)
        ensures
            self == PolicyAction::Deny ==> res == Err::<(), E>(error),
            self != PolicyAction::Deny ==> res is Ok,
    {
        match self {
            Self::Allow => {
                logger.info(error);
                Ok(())
            },
            Self::Warn => {
                logger.warn(error);
                Ok(())
            },
            Self::Deny => Err(error),
        }
    }
}

/// What to do about a finding that can be rewritten.
#[derive(Clone, Copy, Debug, PartialEq, Eq, Structural)]
pub enum PolicyActionReplace {
    Allow,
    Replace,
    Warn,
    WarnAndReplace,
    Deny,
}

impl PolicyActionReplace {
    /// `Allow` and `Warn` log the error and keep the content; `Replace` and `WarnAndReplace`
    /// log it and give the result of `rewrite`; `Deny` gives the error back.
    pub fn handle_error<T, F: FnOnce() -> T, E: Into<LoggerError>, L: LoggerTrait>(
        self,
        logger: &L,
        rewrite: F,
        error: E,
    ) -> (res: Result<Option<T>, E>)
        requires
            (self == PolicyActionReplace::Replace || self == PolicyActionReplace::WarnAndReplace)
                ==> rewrite.requires(()),
        ensures
            self == PolicyActionReplace::Deny ==> res == Err::<Option<T>, E>(error),
            (self == PolicyActionReplace::Allow || self == PolicyActionReplace::Warn) ==> res
                == Ok::<Option<T>, E>(None),
            (self == PolicyActionReplace::Replace || self == PolicyActionReplace::WarnAndReplace)
                ==> (res matches Ok(Some(t)) && rewrite.ensures((), t)),
    {
        match self {
            Self::Allow => {
                logger.info(error);
                Ok(None)
            },
            Self::Replace => {
                logger.info(error);
                Ok(Some(rewrite()))
            },
            Self::Warn => {
                logger.warn(error);
                Ok(None)
            },
            Self::WarnAndReplace => {
                logger.error(error);
                Ok(Some(rewrite()))
            },
            Self::Deny => Err(error),
        }
    }
}

/// A host named in a policy.
#[derive(Debug, Clone)]
pub struct PolicyHost(pub Host);

/// The hosts of `names` that parse, in order (as `flat_map(Host::parse)`).
pub open spec fn parsed_hosts(names: Seq<Seq<char>>) -> Seq<Seq<char>>
    decreases names.len(),
{
    if names.len() == 0 {
        seq![]
    } else {
        let r = parsed_hosts(names.drop_last());
        match parsed_host(names.last()) {
            Some(h) => r.push(h),
            None => r,
        }
    }
}

/// The hosts of a list of policy hosts, by their text.
pub open spec fn policy_hosts_view(v: Seq<PolicyHost>) -> Seq<Seq<char>> {
    v.map_values(|h: PolicyHost| h.0@)
}

fn push_parsed(v: &mut Vec<PolicyHost>, name: &str)
    ensures
        policy_hosts_view(final(v)@) == match parsed_host(name@) {
            Some(h) => policy_hosts_view(old(v)@).push(h),
            None => policy_hosts_view(old(v)@),
        },
{
    let ghost before = policy_hosts_view(v@);
    match Host::parse(name) {
        Some(h) => {
            v.push(PolicyHost(h));
            assert(policy_hosts_view(v@) =~= before.push(v@.last().0@));
        },
        None => {},
    }
}

/// The policy of the sanitizer.
#[derive(Debug)]
pub struct Policy {
    pub html: HtmlPolicy,
    pub urls: UrlsPolicy,
    pub resources: ResourcesPolicy,
    pub connections: ConnectionsPolicy,
}

impl Default for Policy {
    fn default() -> (res: Self)
        ensures
            res.html.is_default(),
            res.urls.is_default(),
            res.resources.is_default(),
            res.connections.is_default(),
    {
        Policy {
            html: HtmlPolicy::default(),
            urls: UrlsPolicy::default(),
            resources: ResourcesPolicy::default(),
            connections: ConnectionsPolicy::default(),
        }
    }
}

/// The HTML part of the policy.
#[derive(Debug)]
pub struct HtmlPolicy {
    pub allow_scripts: Vec<String>,
    pub allow_origins: Vec<PolicyHost>,
    pub strip_event_handlers: bool,
    pub rewrite_dangerous_uris: bool,
    /// Action to perform when a dangerous domain is encountered
    pub dangerous_domain_action: PolicyActionReplace,
}

impl HtmlPolicy {
    /// The default: no allowed scripts, `trusted.com` as the allowed origin, event handlers
    /// stripped, dangerous URIs rewritten, dangerous domains warned about and replaced.
    pub open spec fn is_default(&self) -> bool {
        &&& self.allow_scripts@.len() == 0
        &&& policy_hosts_view(self.allow_origins@) == parsed_hosts(seq!["trusted.com"@])
        &&& self.strip_event_handlers
        &&& self.rewrite_dangerous_uris
        &&& self.dangerous_domain_action == PolicyActionReplace::WarnAndReplace
    }
}

impl Default for HtmlPolicy {
    fn default() -> (res: Self)
        ensures
            res.is_default(),
    {
        let mut allow_origins: Vec<PolicyHost> = Vec::new();
        push_parsed(&mut allow_origins, "trusted.com");
        proof {
            let names = seq!["trusted.com"@];
            reveal_with_fuel(parsed_hosts, 2);
            assert(names.drop_last() =~= Seq::<Seq<char>>::empty());
            assert(names.last() == "trusted.com"@);
            assert(policy_hosts_view(Seq::<PolicyHost>::empty()) =~= Seq::<Seq<char>>::empty());
        }
        Self {
            allow_scripts: Vec::new(),
            allow_origins,
            strip_event_handlers: true,
            rewrite_dangerous_uris: true,
            dangerous_domain_action: PolicyActionReplace::WarnAndReplace,
        }
    }
}

/// The URL part of the policy.
#[derive(Debug)]
pub struct UrlsPolicy {
    /// List of domains considered dangerous
    /// Ignores prefix labels (e.g. `youtube.com` matches `www.youtube.com`)
    pub dangerous_domains: Vec<PolicyHost>,
    /// Action to perform when a non-latin url is encountered
    pub idn_action: PolicyAction,
}

impl UrlsPolicy {
    /// The default: `malicious-domain.com` and `evil.com` are dangerous, and IDN URLs are denied.
    pub open spec fn is_default(&self) -> bool {
        &&& policy_hosts_view(self.dangerous_domains@) == parsed_hosts(
            seq!["malicious-domain.com"@, "evil.com"@],
        )
        &&& self.idn_action == PolicyAction::Deny
    }
}

impl Default for UrlsPolicy {
    fn default() -> (res: Self)
        ensures
            res.is_default(),
    {
        let mut dangerous_domains: Vec<PolicyHost> = Vec::new();
        push_parsed(&mut dangerous_domains, "malicious-domain.com");
        push_parsed(&mut dangerous_domains, "evil.com");
        proof {
            let names = seq!["malicious-domain.com"@, "evil.com"@];
            assert(names.drop_last() =~= seq!["malicious-domain.com"@]);
            assert(names.drop_last().drop_last() =~= Seq::<Seq<char>>::empty());
            reveal_with_fuel(parsed_hosts, 3);
            assert(names.last() == "evil.com"@);
            assert(names.drop_last().last() == "malicious-domain.com"@);
            assert(policy_hosts_view(Seq::<PolicyHost>::empty()) =~= Seq::<Seq<char>>::empty());
        }
        Self { dangerous_domains, idn_action: PolicyAction::Deny }
    }
}

/// The sub-resource part of the policy.
#[derive(Debug, Clone, Copy)]
pub struct ResourcesPolicy {
    pub fetch_sub_resources: bool,
    pub max_depth: usize,
    pub max_bytes: usize,
    pub max_bytes_action: PolicyAction,
    pub max_requests: usize,
}

impl ResourcesPolicy {
    /// The default: sub-resources are fetched to depth 1, at most 1 MiB and 5 requests,
    /// and a larger body is denied.
    pub open spec fn is_default(&self) -> bool {
        &&& self.fetch_sub_resources
        &&& self.max_depth == 1
        &&& self.max_bytes == 1024 * 1024
        &&& self.max_bytes_action == PolicyAction::Deny
        &&& self.max_requests == 5
    }
}

impl Default for ResourcesPolicy {
    fn default() -> (res: Self)
        ensures
            res.is_default(),
    {
        Self {
            fetch_sub_resources: true,
            max_depth: 1,
            max_bytes: 1024 * 1024,
            max_bytes_action: PolicyAction::Deny,
            max_requests: 5,
        }
    }
}

/// The connection part of the policy. Timeouts are in milliseconds.
#[derive(Debug)]
pub struct ConnectionsPolicy {
    pub connection_timeout_ms: u64,
    pub overall_timeout_ms: u64,
    /// Maximum number of redirects for a single connection
    pub max_redirects: Option<usize>,
    /// Action to perform when a connection exceeds `max_redirects`
    pub max_redirects_action: PolicyAction,
    /// User agent to include in every request
    pub user_agent: String,
    /// Action to perform when connecting to a dangerous domain
    pub dangerous_domain_action: PolicyAction,
}

/// The default user agent.
pub open spec fn default_user_agent() -> Seq<char> {
    "CoolBot/0.0 (https://example.org/coolbot/; coolbot@example.org) generic-library/0.0"@
}

impl ConnectionsPolicy {
    /// The default: 3 s to connect, 15 s overall, at most 2 redirects (more are denied),
    /// the default user agent, and connections to dangerous domains denied.
    pub open spec fn is_default(&self) -> bool {
        &&& self.connection_timeout_ms == 3000
        &&& self.overall_timeout_ms == 15000
        &&& self.max_redirects == Some(2usize)
        &&& self.max_redirects_action == PolicyAction::Deny
        &&& self.user_agent@ == default_user_agent()
        &&& self.dangerous_domain_action == PolicyAction::Deny
    }
}

impl Default for ConnectionsPolicy {
    fn default() -> (res: Self)
        ensures
            res.is_default(),
    {
        Self {
            connection_timeout_ms: 3000,
            overall_timeout_ms: 15000,
            max_redirects: Some(2),
            max_redirects_action: PolicyAction::Deny,
            user_agent: "CoolBot/0.0 (https://example.org/coolbot/; coolbot@example.org) generic-library/0.0".to_string(),
            dangerous_domain_action: PolicyAction::Deny,
        }
    }
}

} // verus!
