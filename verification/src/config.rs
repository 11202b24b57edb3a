//! The daemon's settings and the rules that a usable configuration meets.

use vstd::prelude::*;
use crate::filter::{count_placeholders, placeholder_count};
use crate::scope::{scope_from_word, scope_named};
use crate::text::{begins_with, same_text};

verus! {

/// What is wrong with one endpoint.
#[derive(Clone, Copy, Debug, PartialEq, Eq, Structural)]
pub enum EndpointFault {
    /// The path is empty.
    EmptyPath,
    /// The path does not start with `/`.
    PathWithoutSlash,
    /// The search base is empty.
    EmptySearchBase,
    /// The filter template is empty.
    EmptySearchFilter,
    /// The filter template has no `{}`.
    MissingPlaceholder,
    /// The filter template has more than one `{}`.
    RepeatedPlaceholder,
    /// The scope is none of `base`, `one`, `subtree`.
    UnknownScope,
    /// The attribute is empty.
    EmptyAttribute,
    /// The kind of result processing is not `dn_translation`.
    UnknownProcessingKind,
    /// The attribute of the result processing is empty.
    EmptyProcessingAttribute,
}

/// Why a configuration is refused.
#[derive(Clone, Copy, Debug, PartialEq, Eq, Structural)]
pub enum ConfigError {
    /// The directory's URL is empty.
    EmptyLdapUrl,
    /// The directory's URL starts with neither `ldap://` nor `ldaps://`.
    UnsupportedLdapScheme,
    /// The bind DN is empty.
    EmptyBindDn,
    /// The bind password is empty.
    EmptyBindPassword,
    /// The refresh interval is zero.
    ZeroRefreshInterval,
    /// The refresh interval is longer than a day.
    RefreshIntervalTooLong,
    /// No endpoint is configured.
    NoEndpoints,
    /// The endpoint at `index` has a fault.
    Endpoint { index: usize, fault: EndpointFault },
    /// The endpoint at `index` has the path of an earlier endpoint.
    DuplicatePath { index: usize },
    /// Group or others have some right on the configuration file.
    InsecurePermissions,
    /// The configuration file does not belong to root.
    NotOwnedByRoot,
}

/// `Err` of the fault that was found, `Ok` where none was.
pub open spec fn refusal<E>(fault: Option<E>) -> Result<(), E> {
    match fault {
        Some(e) => Err(e),
        None => Ok(()),
    }
}

/// The kind of result processing that resolves each value as a DN.
pub open spec fn dn_translation() -> Seq<char> {
    "dn_translation"@
}

/// The longest refresh interval, in seconds: one day.
pub const MAX_REFRESH_INTERVAL_SECS: u64 = 86400;

/// The permission bits of group and others.
pub const GROUP_AND_OTHERS: u32 = 0o077;

// ---------------------------------------------------------------------
// Directory connection
// ---------------------------------------------------------------------
/// How to reach the directory and as whom.
#[derive(Clone, Debug)]
pub struct LdapConfig {
    url: String,
    bind_dn: String,
    bind_password: String,
}

/// What an `LdapConfig` holds.
pub struct LdapConfigView {
    pub url: Seq<char>,
    pub bind_dn: Seq<char>,
    pub bind_password: Seq<char>,
}

impl View for LdapConfig {
    type V = LdapConfigView;

    closed spec fn view(&self) -> LdapConfigView {
        LdapConfigView {
            url: self.url@,
            bind_dn: self.bind_dn@,
            bind_password: self.bind_password@,
        }
    }
}

/// The first fault of the directory settings, in the order in which they are judged.
pub open spec fn ldap_fault(c: LdapConfigView) -> Option<ConfigError> {
    if c.url.len() == 0 {
        Some(ConfigError::EmptyLdapUrl)
    } else if !"ldap://"@.is_prefix_of(c.url) && !"ldaps://"@.is_prefix_of(c.url) {
        Some(ConfigError::UnsupportedLdapScheme)
    } else if c.bind_dn.len() == 0 {
        Some(ConfigError::EmptyBindDn)
    } else if c.bind_password.len() == 0 {
        Some(ConfigError::EmptyBindPassword)
    } else {
        None
    }
}

impl LdapConfig {
    pub fn new(url: String, bind_dn: String, bind_password: String) -> (c: LdapConfig)
        ensures
            c@ == (LdapConfigView { url: url@, bind_dn: bind_dn@, bind_password: bind_password@ }),
    {
        LdapConfig { url, bind_dn, bind_password }
    }

    pub fn url(&self) -> (r: &String)
        ensures
            r@ == self@.url,
    {
        &self.url
    }

    pub fn bind_dn(&self) -> (r: &String)
        ensures
            r@ == self@.bind_dn,
    {
        &self.bind_dn
    }

    pub fn bind_password(&self) -> (r: &String)
        ensures
            r@ == self@.bind_password,
    {
        &self.bind_password
    }

    /// Judges the directory settings: the URL is there and starts with
    /// `ldap://` or `ldaps://`, and the bind DN and password are there.
    pub fn validate(&self) -> (r: Result<(), ConfigError>)
        ensures
            r == refusal(ldap_fault(self@)),
    {
        if self.url.as_str().is_empty() {
            return Err(ConfigError::EmptyLdapUrl);
        }
        if !begins_with(self.url.as_str(), "ldap://") && !begins_with(
            self.url.as_str(),
            "ldaps://",
        ) {
            return Err(ConfigError::UnsupportedLdapScheme);
        }
        if self.bind_dn.as_str().is_empty() {
            return Err(ConfigError::EmptyBindDn);
        }
        if self.bind_password.as_str().is_empty() {
            return Err(ConfigError::EmptyBindPassword);
        }
        Ok(())
    }
}

// ---------------------------------------------------------------------
// Server
// ---------------------------------------------------------------------
/// Where the daemon listens and how often it refreshes its cache.
#[derive(Clone, Debug)]
pub struct ServerConfig {
    bind_addr: String,
    refresh_interval_secs: u64,
}

/// What a `ServerConfig` holds.
pub struct ServerConfigView {
    pub bind_addr: Seq<char>,
    pub refresh_interval_secs: u64,
}

impl View for ServerConfig {
    type V = ServerConfigView;

    closed spec fn view(&self) -> ServerConfigView {
        ServerConfigView {
            bind_addr: self.bind_addr@,
            refresh_interval_secs: self.refresh_interval_secs,
        }
    }
}

/// The fault of the server settings: an interval of zero, or of more than a day.
pub open spec fn server_fault(c: ServerConfigView) -> Option<ConfigError> {
    if c.refresh_interval_secs == 0 {
        Some(ConfigError::ZeroRefreshInterval)
    } else if c.refresh_interval_secs > MAX_REFRESH_INTERVAL_SECS {
        Some(ConfigError::RefreshIntervalTooLong)
    } else {
        None
    }
}

impl ServerConfig {
    pub fn new(bind_addr: String, refresh_interval_secs: u64) -> (c: ServerConfig)
        ensures
            c@ == (ServerConfigView { bind_addr: bind_addr@, refresh_interval_secs }),
    {
        ServerConfig { bind_addr, refresh_interval_secs }
    }

    /// The socket address to listen on, as it is written.
    pub fn bind_addr(&self) -> (r: &String)
        ensures
            r@ == self@.bind_addr,
    {
        &self.bind_addr
    }

    pub fn refresh_interval_secs(&self) -> (r: &u64)
        ensures
            *r == self@.refresh_interval_secs,
    {
        &self.refresh_interval_secs
    }

    /// Judges the server settings: the refresh interval is at least a
    /// second and at most a day.
    pub fn validate(&self) -> (r: Result<(), ConfigError>)
        ensures
            r == refusal(server_fault(self@)),
    {
        if self.refresh_interval_secs == 0 {
            return Err(ConfigError::ZeroRefreshInterval);
        }
        if self.refresh_interval_secs > MAX_REFRESH_INTERVAL_SECS {
            return Err(ConfigError::RefreshIntervalTooLong);
        }
        Ok(())
    }
}

// ---------------------------------------------------------------------
// Result processing
// ---------------------------------------------------------------------
/// A second lookup made for each value of the first search.
#[derive(Clone, Debug)]
pub struct ResultProcessing {
    kind: String,
    attribute: String,
}

/// What a `ResultProcessing` holds.
pub struct ResultProcessingView {
    pub kind: Seq<char>,
    pub attribute: Seq<char>,
}

impl View for ResultProcessing {
    type V = ResultProcessingView;

    closed spec fn view(&self) -> ResultProcessingView {
        ResultProcessingView { kind: self.kind@, attribute: self.attribute@ }
    }
}

/// The first fault of a result processing.
pub open spec fn processing_fault(p: ResultProcessingView) -> Option<EndpointFault> {
    if p.kind != dn_translation() {
        Some(EndpointFault::UnknownProcessingKind)
    } else if p.attribute.len() == 0 {
        Some(EndpointFault::EmptyProcessingAttribute)
    } else {
        None
    }
}

/// The fault `fault`, reported for the endpoint at `index`.
pub open spec fn at_endpoint(index: usize, fault: Option<EndpointFault>) -> Option<ConfigError> {
    match fault {
        Some(f) => Some(ConfigError::Endpoint { index, fault: f }),
        None => None,
    }
}

impl ResultProcessing {
    pub fn new(kind: String, attribute: String) -> (p: ResultProcessing)
        ensures
            p@ == (ResultProcessingView { kind: kind@, attribute: attribute@ }),
    {
        ResultProcessing { kind, attribute }
    }

    /// The kind of processing, such as `dn_translation`.
    pub fn kind(&self) -> (r: &String)
        ensures
            r@ == self@.kind,
    {
        &self.kind
    }

    /// The attribute that the second lookup asks for.
    pub fn attribute(&self) -> (r: &String)
        ensures
            r@ == self@.attribute,
    {
        &self.attribute
    }

    /// Judges the processing of the endpoint at `endpoint_index`: its kind
    /// is known and its attribute is there.
    pub fn validate(&self, endpoint_index: usize) -> (r: Result<(), ConfigError>)
        ensures
            r == refusal(at_endpoint(endpoint_index, processing_fault(self@))),
    {
        if !same_text(self.kind.as_str(), "dn_translation") {
            return Err(
                ConfigError::Endpoint {
                    index: endpoint_index,
                    fault: EndpointFault::UnknownProcessingKind,
                },
            );
        }
        if self.attribute.as_str().is_empty() {
            return Err(
                ConfigError::Endpoint {
                    index: endpoint_index,
                    fault: EndpointFault::EmptyProcessingAttribute,
                },
            );
        }
        Ok(())
    }
}

/// The view of a result processing that may be absent.
pub open spec fn processing_view(p: Option<ResultProcessing>) -> Option<ResultProcessingView> {
    match p {
        Some(p) => Some(p@),
        None => None,
    }
}

// ---------------------------------------------------------------------
// Endpoint
// ---------------------------------------------------------------------
/// One class of entity that can be asked for: the path it is served
/// under, the search that finds it, and the attribute whose values are
/// returned.
#[derive(Clone, Debug)]
pub struct EndpointConfig {
    path: String,
    search_base: String,
    search_filter: String,
    search_scope: String,
    attribute: String,
    result_processing: Option<ResultProcessing>,
}

/// What an `EndpointConfig` holds.
pub struct EndpointView {
    pub path: Seq<char>,
    pub search_base: Seq<char>,
    pub search_filter: Seq<char>,
    pub search_scope: Seq<char>,
    pub attribute: Seq<char>,
    pub result_processing: Option<ResultProcessingView>,
}

impl View for EndpointConfig {
    type V = EndpointView;

    closed spec fn view(&self) -> EndpointView {
        EndpointView {
            path: self.path@,
            search_base: self.search_base@,
            search_filter: self.search_filter@,
            search_scope: self.search_scope@,
            attribute: self.attribute@,
            result_processing: processing_view(self.result_processing),
        }
    }
}

/// The first fault of an endpoint, in the order in which its settings are judged.
pub open spec fn endpoint_fault(e: EndpointView) -> Option<EndpointFault> {
    if e.path.len() == 0 {
        Some(EndpointFault::EmptyPath)
    } else if e.path[0] != '/' {
        Some(EndpointFault::PathWithoutSlash)
    } else if e.search_base.len() == 0 {
        Some(EndpointFault::EmptySearchBase)
    } else if e.search_filter.len() == 0 {
        Some(EndpointFault::EmptySearchFilter)
    } else if placeholder_count(e.search_filter) == 0 {
        Some(EndpointFault::MissingPlaceholder)
    } else if placeholder_count(e.search_filter) > 1 {
        Some(EndpointFault::RepeatedPlaceholder)
    } else if scope_named(e.search_scope) is None {
        Some(EndpointFault::UnknownScope)
    } else if e.attribute.len() == 0 {
        Some(EndpointFault::EmptyAttribute)
    } else {
        match e.result_processing {
            Some(p) => processing_fault(p),
            None => None,
        }
    }
}

/// What a usable endpoint is: a path that starts with `/`, a search base,
/// a filter template with exactly one placeholder, a known scope, an
/// attribute and, where results are processed, a known kind with an
/// attribute of its own.
pub open spec fn endpoint_well_formed(e: EndpointView) -> bool {
    &&& e.path.len() > 0
    &&& e.path[0] == '/'
    &&& e.search_base.len() > 0
    &&& placeholder_count(e.search_filter) == 1
    &&& scope_named(e.search_scope) is Some
    &&& e.attribute.len() > 0
    &&& match e.result_processing {
        Some(p) => p.kind == dn_translation() && p.attribute.len() > 0,
        None => true,
    }
}

/// An endpoint has no fault exactly when it is usable.
pub proof fn lemma_endpoint_fault_none(e: EndpointView)
    ensures
        endpoint_fault(e) is None <==> endpoint_well_formed(e),
{
    if e.search_filter.len() == 0 {
        assert(placeholder_count(e.search_filter) == 0);
    }
}

impl EndpointConfig {
    pub fn new(
        path: String,
        search_base: String,
        search_filter: String,
        search_scope: String,
        attribute: String,
        result_processing: Option<ResultProcessing>,
    ) -> (e: EndpointConfig)
        ensures
            e@ == (EndpointView {
                path: path@,
                search_base: search_base@,
                search_filter: search_filter@,
                search_scope: search_scope@,
                attribute: attribute@,
                result_processing: processing_view(result_processing),
            }),
    {
        EndpointConfig {
            path,
            search_base,
            search_filter,
            search_scope,
            attribute,
            result_processing,
        }
    }

    /// The path the endpoint is served under.
    pub fn path(&self) -> (r: &String)
        ensures
            r@ == self@.path,
    {
        &self.path
    }

    /// The entry below which the search looks.
    pub fn search_base(&self) -> (r: &String)
        ensures
            r@ == self@.search_base,
    {
        &self.search_base
    }

    /// The filter template, with `{}` where the name goes.
    pub fn search_filter(&self) -> (r: &String)
        ensures
            r@ == self@.search_filter,
    {
        &self.search_filter
    }

    /// The scope of the search, as it is written.
    pub fn search_scope(&self) -> (r: &String)
        ensures
            r@ == self@.search_scope,
    {
        &self.search_scope
    }

    /// The attribute whose values are returned.
    pub fn attribute(&self) -> (r: &String)
        ensures
            r@ == self@.attribute,
    {
        &self.attribute
    }

    /// The second lookup, where one is configured.
    pub fn result_processing(&self) -> (r: &Option<ResultProcessing>)
        ensures
            processing_view(*r) == self@.result_processing,
    {
        &self.result_processing
    }

    /// Judges the endpoint at `index` and reports its first fault.
    pub fn validate(&self, index: usize) -> (r: Result<(), ConfigError>)
        ensures
            r == refusal(at_endpoint(index, endpoint_fault(self@))),
            r is Ok <==> endpoint_well_formed(self@),
    {
        proof {
            lemma_endpoint_fault_none(self@);
        }
        if self.path.as_str().is_empty() {
            return Err(ConfigError::Endpoint { index, fault: EndpointFault::EmptyPath });
        }
        if !begins_with(self.path.as_str(), "/") {
            proof {
                reveal_strlit("/");
                if self@.path[0] == '/' {
                    assert("/"@ =~= self@.path.subrange(0, 1));
                }
            }
            return Err(ConfigError::Endpoint { index, fault: EndpointFault::PathWithoutSlash });
        }
        proof {
            reveal_strlit("/");
            assert(self@.path.subrange(0, 1)[0] == self@.path[0]);
        }
        if self.search_base.as_str().is_empty() {
            return Err(ConfigError::Endpoint { index, fault: EndpointFault::EmptySearchBase });
        }
        if self.search_filter.as_str().is_empty() {
            return Err(ConfigError::Endpoint { index, fault: EndpointFault::EmptySearchFilter });
        }
        let placeholders = count_placeholders(self.search_filter.as_str());
        if placeholders == 0 {
            return Err(ConfigError::Endpoint { index, fault: EndpointFault::MissingPlaceholder });
        }
        if placeholders > 1 {
            return Err(ConfigError::Endpoint { index, fault: EndpointFault::RepeatedPlaceholder });
        }
        if scope_from_word(self.search_scope.as_str()).is_none() {
            return Err(ConfigError::Endpoint { index, fault: EndpointFault::UnknownScope });
        }
        if self.attribute.as_str().is_empty() {
            return Err(ConfigError::Endpoint { index, fault: EndpointFault::EmptyAttribute });
        }
        match &self.result_processing {
            Some(processing) => processing.validate(index),
            None => Ok(()),
        }
    }
}

// ---------------------------------------------------------------------
// The whole configuration
// ---------------------------------------------------------------------
/// Everything the daemon is told at start.
#[derive(Clone, Debug)]
pub struct Config {
    ldap: LdapConfig,
    server: ServerConfig,
    endpoints: Vec<EndpointConfig>,
}

/// What a `Config` holds.
pub struct ConfigView {
    pub ldap: LdapConfigView,
    pub server: ServerConfigView,
    pub endpoints: Seq<EndpointView>,
}

/// The views of a list of endpoints, in order.
pub open spec fn endpoint_views(v: Seq<EndpointConfig>) -> Seq<EndpointView> {
    v.map_values(|e: EndpointConfig| e@)
}

impl View for Config {
    type V = ConfigView;

    closed spec fn view(&self) -> ConfigView {
        ConfigView {
            ldap: self.ldap@,
            server: self.server@,
            endpoints: endpoint_views(self.endpoints@),
        }
    }
}

/// The fault of the first faulty endpoint at or after position `from`.
pub open spec fn first_endpoint_fault(es: Seq<EndpointView>, from: int) -> Option<ConfigError>
    decreases es.len() - from,
{
    if from < 0 || from >= es.len() {
        None
    } else {
        match endpoint_fault(es[from]) {
            Some(f) => Some(ConfigError::Endpoint { index: from as usize, fault: f }),
            None => first_endpoint_fault(es, from + 1),
        }
    }
}

/// Whether the endpoint at `j` has the path of an earlier one.
pub open spec fn repeats_earlier_path(es: Seq<EndpointView>, j: int) -> bool {
    exists|i: int| 0 <= i < j && (#[trigger] es[i]).path == es[j].path
}

/// The first endpoint at or after `from` that has the path of an earlier one.
pub open spec fn first_repeated_path(es: Seq<EndpointView>, from: int) -> Option<ConfigError>
    decreases es.len() - from,
{
    if from < 0 || from >= es.len() {
        None
    } else if repeats_earlier_path(es, from) {
        Some(ConfigError::DuplicatePath { index: from as usize })
    } else {
        first_repeated_path(es, from + 1)
    }
}

/// The first fault of a configuration, in the order in which it is judged:
/// the directory, the server, the presence of endpoints, each endpoint in
/// turn, then the paths.
pub open spec fn config_fault(c: ConfigView) -> Option<ConfigError> {
    if ldap_fault(c.ldap) is Some {
        ldap_fault(c.ldap)
    } else if server_fault(c.server) is Some {
        server_fault(c.server)
    } else if c.endpoints.len() == 0 {
        Some(ConfigError::NoEndpoints)
    } else if first_endpoint_fault(c.endpoints, 0) is Some {
        first_endpoint_fault(c.endpoints, 0)
    } else {
        first_repeated_path(c.endpoints, 0)
    }
}

/// What a usable configuration is: directory and server settings without
/// fault, at least one endpoint, every endpoint usable, and no path used
/// twice.
pub open spec fn config_well_formed(c: ConfigView) -> bool {
    &&& ldap_fault(c.ldap) is None
    &&& server_fault(c.server) is None
    &&& c.endpoints.len() > 0
    &&& forall|i: int| 0 <= i < c.endpoints.len() ==> endpoint_well_formed(#[trigger] c.endpoints[i])
    &&& forall|i: int, j: int|
        0 <= i < j < c.endpoints.len() ==> (#[trigger] c.endpoints[i]).path != (
        #[trigger] c.endpoints[j]).path
}

/// No endpoint from `from` on is faulty exactly when each of them is usable.
pub proof fn lemma_first_endpoint_fault(es: Seq<EndpointView>, from: int)
    requires
        0 <= from,
    ensures
        first_endpoint_fault(es, from) is None <==> forall|i: int|
            from <= i < es.len() ==> endpoint_well_formed(#[trigger] es[i]),
    decreases es.len() - from,
{
    if from < es.len() {
        lemma_endpoint_fault_none(es[from]);
        lemma_first_endpoint_fault(es, from + 1);
    }
}

/// No endpoint from `from` on repeats a path exactly when each of them
/// differs in its path from all before it.
pub proof fn lemma_first_repeated_path(es: Seq<EndpointView>, from: int)
    requires
        0 <= from,
    ensures
        first_repeated_path(es, from) is None <==> forall|i: int, j: int|
            0 <= i < j < es.len() && from <= j ==> (#[trigger] es[i]).path != (#[trigger] es[j]).path,
    decreases es.len() - from,
{
    if from < es.len() {
        lemma_first_repeated_path(es, from + 1);
        if repeats_earlier_path(es, from) {
            let i = choose|i: int| 0 <= i < from && (#[trigger] es[i]).path == es[from].path;
            assert(es[i].path == es[from].path);
        } else if first_repeated_path(es, from + 1) is None {
            assert forall|i: int, j: int| 0 <= i < j < es.len() && from <= j implies (
            #[trigger] es[i]).path != (#[trigger] es[j]).path by {
                if j == from {
                    if es[i].path == es[j].path {
                        assert(repeats_earlier_path(es, from));
                    }
                }
            }
        }
    }
}

/// A configuration has no fault exactly when it is usable.
pub proof fn lemma_config_fault_none(c: ConfigView)
    ensures
        config_fault(c) is None <==> config_well_formed(c),
{
    lemma_first_endpoint_fault(c.endpoints, 0);
    lemma_first_repeated_path(c.endpoints, 0);
}

impl Config {
    pub fn new(ldap: LdapConfig, server: ServerConfig, endpoints: Vec<EndpointConfig>) -> (c: Config)
        ensures
            c@ == (ConfigView {
                ldap: ldap@,
                server: server@,
                endpoints: endpoint_views(endpoints@),
            }),
    {
        Config { ldap, server, endpoints }
    }

    pub fn ldap(&self) -> (r: &LdapConfig)
        ensures
            r@ == self@.ldap,
    {
        &self.ldap
    }

    pub fn server(&self) -> (r: &ServerConfig)
        ensures
            r@ == self@.server,
    {
        &self.server
    }

    pub fn endpoints(&self) -> (r: &Vec<EndpointConfig>)
        ensures
            endpoint_views(r@) == self@.endpoints,
    {
        &self.endpoints
    }

    /// Judges the whole configuration and reports its first fault.
    pub fn validate(&self) -> (r: Result<(), ConfigError>)
        ensures
            r == refusal(config_fault(self@)),
            r is Ok <==> config_well_formed(self@),
    {
        proof {
            lemma_config_fault_none(self@);
        }
        match self.ldap.validate() {
            Err(e) => {
                return Err(e);
            },
            Ok(_) => {},
        }
        match self.server.validate() {
            Err(e) => {
                return Err(e);
            },
            Ok(_) => {},
        }
        if self.endpoints.len() == 0 {
            return Err(ConfigError::NoEndpoints);
        }
        let ghost es = self@.endpoints;
        let n = self.endpoints.len();
        let mut k: usize = 0;
        while k < n
            invariant
                es == endpoint_views(self.endpoints@),
                n == self.endpoints.len(),
                k <= n,
                es == self@.endpoints,
                ldap_fault(self@.ldap) is None,
                server_fault(self@.server) is None,
                first_endpoint_fault(es, k as int) == first_endpoint_fault(es, 0),
            decreases n - k,
        {
            assert(es[k as int] == self.endpoints@[k as int]@);
            match self.endpoints[k].validate(k) {
                Err(e) => {
                    return Err(e);
                },
                Ok(_) => {},
            }
            k += 1;
        }
        let mut j: usize = 0;
        while j < n
            invariant
                es == endpoint_views(self.endpoints@),
                n == self.endpoints.len(),
                j <= n,
                es == self@.endpoints,
                ldap_fault(self@.ldap) is None,
                server_fault(self@.server) is None,
                first_endpoint_fault(es, 0) is None,
                first_repeated_path(es, j as int) == first_repeated_path(es, 0),
            decreases n - j,
        {
            let mut i: usize = 0;
            while i < j
                invariant
                    es == endpoint_views(self.endpoints@),
                    n == self.endpoints.len(),
                    i <= j < n,
                    es == self@.endpoints,
                    ldap_fault(self@.ldap) is None,
                    server_fault(self@.server) is None,
                    first_endpoint_fault(es, 0) is None,
                    first_repeated_path(es, j as int) == first_repeated_path(es, 0),
                    forall|h: int| 0 <= h < i ==> (#[trigger] es[h]).path != es[j as int].path,
                decreases j - i,
            {
                assert(es[i as int] == self.endpoints@[i as int]@);
                assert(es[j as int] == self.endpoints@[j as int]@);
                if same_text(self.endpoints[i].path.as_str(), self.endpoints[j].path.as_str()) {
                    assert(es[i as int].path == es[j as int].path);
                    assert(repeats_earlier_path(es, j as int));
                    return Err(ConfigError::DuplicatePath { index: j });
                }
                i += 1;
            }
            assert(!repeats_earlier_path(es, j as int));
            j += 1;
        }
        Ok(())
    }
}

/// The position of the first endpoint at or after `from` that is served
/// under `path`.
pub open spec fn endpoint_with_path(es: Seq<EndpointView>, path: Seq<char>, from: int) -> Option<int>
    decreases es.len() - from,
{
    if from < 0 || from >= es.len() {
        None
    } else if es[from].path == path {
        Some(from)
    } else {
        endpoint_with_path(es, path, from + 1)
    }
}

/// What `endpoint_with_path` finds is an endpoint with that path, and the
/// first one; it finds none only where there is none.
pub proof fn lemma_endpoint_with_path(es: Seq<EndpointView>, path: Seq<char>, from: int)
    requires
        0 <= from,
    ensures
        match endpoint_with_path(es, path, from) {
            Some(i) => from <= i < es.len() && es[i].path == path && forall|j: int|
                from <= j < i ==> (#[trigger] es[j]).path != path,
            None => forall|j: int| from <= j < es.len() ==> (#[trigger] es[j]).path != path,
        },
    decreases es.len() - from,
{
    if from < es.len() && es[from].path != path {
        lemma_endpoint_with_path(es, path, from + 1);
    }
}

/// The position of the endpoint that is served under `path`: the first
/// one, should there be several.
pub fn find_endpoint(endpoints: &Vec<EndpointConfig>, path: &str) -> (found: Option<usize>)
    ensures
        match found {
            Some(i) => endpoint_with_path(endpoint_views(endpoints@), path@, 0) == Some(i as int),
            None => endpoint_with_path(endpoint_views(endpoints@), path@, 0) is None,
        },
        found is Some ==> found->0 < endpoints.len(),
{
    let ghost es = endpoint_views(endpoints@);
    let mut i: usize = 0;
    while i < endpoints.len()
        invariant
            es == endpoint_views(endpoints@),
            i <= endpoints.len(),
            endpoint_with_path(es, path@, i as int) == endpoint_with_path(es, path@, 0),
        decreases endpoints.len() - i,
    {
        assert(es[i as int] == endpoints@[i as int]@);
        if same_text(endpoints[i].path.as_str(), path) {
            return Some(i);
        }
        i += 1;
    }
    None
}

/// Whether the permission checks are switched off: they are where the
/// switch is set to `1`, and to nothing else.
pub fn skips_permission_checks(switch: &str) -> (skipped: bool)
    ensures
        skipped == (switch@ == "1"@),
{
    same_text(switch, "1")
}

/// Judges who may read the configuration file, from the mode and the
/// owner that the file system reports for it. Group and others must have
/// no right on the file, and its owner must be root.
pub fn check_permissions(mode: u32, uid: u32) -> (r: Result<(), ConfigError>)
    ensures
        r == if mode & GROUP_AND_OTHERS != 0 {
            Err::<(), ConfigError>(ConfigError::InsecurePermissions)
        } else if uid != 0 {
            Err(ConfigError::NotOwnedByRoot)
        } else {
            Ok(())
        },
{
    if mode & GROUP_AND_OTHERS != 0 {
        return Err(ConfigError::InsecurePermissions);
    }
    if uid != 0 {
        return Err(ConfigError::NotOwnedByRoot);
    }
    Ok(())
}

} // verus!
