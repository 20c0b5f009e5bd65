//! The configuration the engine runs on: teams, VMs and their services,
//! injects, and the timing, scoring and SLA settings; and its validation.
use crate::address::{is_template_text, parse_subnet_template};
use crate::checks::{regex_compiles, regex_search};
use crate::offset::Offset;
use crate::shuffle::random_in_range;
use vstd::prelude::*;

verus! {

/// Seconds between rounds.
pub const DEFAULT_INTERVAL: u32 = 120;

/// Largest shift of a round's start, in seconds, either way.
pub const DEFAULT_JITTER: u32 = 10;

/// Seconds a probe may take.
pub const DEFAULT_CHECK_TIMEOUT: u32 = 30;

/// Consecutive downs of a service that incur an SLA violation.
pub const DEFAULT_MAX_CONSECUTIVE_DOWNS: u32 = 5;

/// Points for a service that is up.
pub const DEFAULT_SERVICE_UP_POINTS: i32 = 5;

/// Points for a service that is down.
pub const DEFAULT_SERVICE_DOWN_POINTS: i32 = 0;

/// Points for an SLA violation.
pub const DEFAULT_SLA_POINTS: i32 = -15;

/// Port of the web interface.
pub const DEFAULT_WEB_PORT: u16 = 8080;

/// Port of the SSH service.
pub const DEFAULT_SSH_PORT: u16 = 22;

pub fn default_interval() -> (r: u32)
    ensures
        r == DEFAULT_INTERVAL,
{
    DEFAULT_INTERVAL
}

pub fn default_jitter() -> (r: u32)
    ensures
        r == DEFAULT_JITTER,
{
    DEFAULT_JITTER
}

pub fn default_check_timeout() -> (r: u32)
    ensures
        r == DEFAULT_CHECK_TIMEOUT,
{
    DEFAULT_CHECK_TIMEOUT
}

pub fn default_max_consecutive_downs() -> (r: u32)
    ensures
        r == DEFAULT_MAX_CONSECUTIVE_DOWNS,
{
    DEFAULT_MAX_CONSECUTIVE_DOWNS
}

pub fn default_service_up_points() -> (r: i32)
    ensures
        r == DEFAULT_SERVICE_UP_POINTS,
{
    DEFAULT_SERVICE_UP_POINTS
}

pub fn default_service_down_points() -> (r: i32)
    ensures
        r == DEFAULT_SERVICE_DOWN_POINTS,
{
    DEFAULT_SERVICE_DOWN_POINTS
}

pub fn default_sla_points() -> (r: i32)
    ensures
        r == DEFAULT_SLA_POINTS,
{
    DEFAULT_SLA_POINTS
}

pub fn default_web_port() -> (r: u16)
    ensures
        r == DEFAULT_WEB_PORT,
{
    DEFAULT_WEB_PORT
}

pub fn default_ssh_port() -> (r: u16)
    ensures
        r == DEFAULT_SSH_PORT,
{
    DEFAULT_SSH_PORT
}

/// The request method of a page when none is given.
pub fn default_http_method() -> (r: String)
    ensures
        r@ == "GET"@,
{
    String::from_str("GET")
}

/// One page of an HTTP service.
#[derive(Clone, Debug)]
pub struct HttpInner {
    pub method: String,
    pub path: String,
    pub headers: Option<Vec<(String, String)>>,
    pub body: Option<String>,
    /// Text the response body must contain.
    pub contains: Option<String>,
    /// Regular expression the response body must match.
    pub contains_regex: Option<String>,
}

/// An HTTP service: every page must pass, in order.
#[derive(Clone, Debug)]
pub struct Http {
    pub pages: Vec<HttpInner>,
}

/// How an SSH probe logs in.
#[derive(Clone, Debug)]
pub enum SshAuthType {
    Password { user: String, password: String },
    Pubkey { user: String, private_key: String, passphrase: Option<String> },
}

/// An SSH service, with an optional command that must exit with code 0.
#[derive(Clone, Debug)]
pub struct Ssh {
    pub port: u16,
    pub auth: SshAuthType,
    pub command: Option<String>,
}

/// A service to probe: one protocol per service.
#[derive(Clone, Debug)]
pub enum Service {
    Http(Http),
    Ssh(Ssh),
}

/// A VM that every team runs, with its host octet and its services by name.
#[derive(Clone, Debug)]
pub struct Vm {
    pub ip: u8,
    pub services: Vec<(String, Service)>,
}

/// What an inject asks of teams.
#[derive(Clone, Debug)]
pub enum InjectType {
    /// New services to be stood up on an existing VM.
    Service { vm: String, services: Vec<(String, Service)> },
    Response,
}

impl InjectType {
    /// A short description: the kind of inject, and the VM of a service
    /// inject.
    pub fn to_text(&self) -> (r: String)
        ensures
            r@ == match self {
                InjectType::Service { vm, .. } => "Service (vm='"@ + vm@ + "')"@,
                InjectType::Response => "Response"@,
            },
    {
        match self {
            InjectType::Service { vm, .. } => {
                let mut out = String::from_str("Service (vm='");
                out.append(vm.as_str());
                out.append("')");
                out
            },
            InjectType::Response => String::from_str("Response"),
        }
    }
}

/// A task handed to teams during the round.
#[derive(Clone, Debug)]
pub struct Inject {
    pub title: String,
    pub source: String,
    pub offset: Offset,
    pub inner: InjectType,
}

/// SLA settings.
#[derive(Clone, Copy, Debug)]
pub struct Slas {
    pub enable: bool,
    pub max_consecutive_downs: u32,
}

impl Default for Slas {
    fn default() -> (r: Self)
        ensures
            !r.enable,
            r.max_consecutive_downs == DEFAULT_MAX_CONSECUTIVE_DOWNS,
    {
        Slas { enable: false, max_consecutive_downs: DEFAULT_MAX_CONSECUTIVE_DOWNS }
    }
}

/// Points for each service and round.
#[derive(Clone, Copy, Debug)]
pub struct Scoring {
    pub service_up: i32,
    pub service_down: i32,
    pub sla: i32,
}

impl Default for Scoring {
    fn default() -> (r: Self)
        ensures
            r.service_up == DEFAULT_SERVICE_UP_POINTS,
            r.service_down == DEFAULT_SERVICE_DOWN_POINTS,
            r.sla == DEFAULT_SLA_POINTS,
    {
        Scoring {
            service_up: DEFAULT_SERVICE_UP_POINTS,
            service_down: DEFAULT_SERVICE_DOWN_POINTS,
            sla: DEFAULT_SLA_POINTS,
        }
    }
}

/// Round timing, in seconds.
#[derive(Clone, Copy, Debug)]
pub struct Timing {
    pub interval: u32,
    pub jitter: u32,
    pub check_timeout: u32,
}

/// Settings of the web interface.
#[derive(Clone, Debug)]
pub struct Web {
    pub admin_username: String,
    pub admin_password: String,
    pub port: u16,
}

/// A team: its subnet template (such as `10.65.3.x`) and its password.
#[derive(Clone, Debug)]
pub struct Team {
    pub subnet: String,
    pub password: String,
}

/// The configuration as loaded, before validation.
#[derive(Clone, Debug)]
pub struct ConfigInner {
    pub round: String,
    pub inject_dir: String,
    pub timing: Timing,
    pub scoring: Scoring,
    pub web: Web,
    pub slas: Slas,
    pub vms: Vec<(String, Vm)>,
    pub injects: Vec<Inject>,
    pub teams: Vec<(String, Team)>,
}

/// Why a configuration is refused.
#[derive(Clone, Debug)]
pub enum ConfigError {
    /// Two teams, two VMs, or two services of one VM share a name.
    DuplicateName { name: String },
    InvalidSubnet { team: String, subnet: String },
    UnknownVm { inject: String, vm: String },
    DuplicateService { inject: String, service: String, vm: String },
    /// SLAs are enabled with a threshold of zero downs.
    ZeroSlaThreshold,
    /// A page's expected pattern is no regular expression that compiles.
    InvalidPattern { pattern: String },
}

/// The names of a list of named entries.
pub open spec fn names_of<T>(entries: Seq<(String, T)>) -> Seq<Seq<char>> {
    entries.map_values(|e: (String, T)| e.0@)
}

/// No two entries share a name.
pub open spec fn names_unique<T>(entries: Seq<(String, T)>) -> bool {
    forall|i: int, j: int|
        0 <= i < j < entries.len() ==> #[trigger] entries[i].0@ != #[trigger] entries[j].0@
}

/// Entry `j` of `entries` is named `name`.
pub open spec fn named<T>(entries: Seq<(String, T)>, name: Seq<char>, j: int) -> bool {
    0 <= j < entries.len() && entries[j].0@ == name
}

/// Whether an inject fits the VMs: the VM it names exists and none of the
/// services it adds is already there.
pub open spec fn inject_fits(vms: Seq<(String, Vm)>, inject: Inject) -> bool {
    match inject.inner {
        InjectType::Service { vm, services } => exists|j: int|
            #[trigger] named(vms, vm@, j) && forall|k: int, l: int|
                0 <= k < services@.len() && 0 <= l < vms[j].1.services@.len()
                    ==> #[trigger] services@[k].0@ != #[trigger] vms[j].1.services@[l].0@,
        InjectType::Response => true,
    }
}

/// Every expected pattern of the pages compiles.
pub open spec fn pages_patterns_ok(pages: Seq<HttpInner>) -> bool {
    forall|i: int|
        0 <= i < pages.len() ==> ((#[trigger] pages[i]).contains_regex matches Some(p) ==> regex_compiles(
            p@,
        ))
}

/// Every expected pattern of the services compiles.
pub open spec fn services_patterns_ok(services: Seq<(String, Service)>) -> bool {
    forall|i: int|
        0 <= i < services.len() ==> ((#[trigger] services[i]).1 matches Service::Http(h)
            ==> pages_patterns_ok(h.pages@))
}

/// Page `i` of service `k` expects `pattern`.
pub open spec fn pattern_at(services: Seq<(String, Service)>, k: int, i: int, pattern: Seq<char>) -> bool {
    &&& 0 <= k < services.len()
    &&& services[k].1 is Http
    &&& 0 <= i < services[k].1->Http_0.pages@.len()
    &&& services[k].1->Http_0.pages@[i].contains_regex is Some
    &&& services[k].1->Http_0.pages@[i].contains_regex->0@ == pattern
}

/// Some page of the services expects `pattern`.
pub open spec fn has_pattern(services: Seq<(String, Service)>, pattern: Seq<char>) -> bool {
    exists|k: int, i: int| #[trigger] pattern_at(services, k, i, pattern)
}

impl ConfigInner {
    /// Some page of a VM's service or of an inject's service expects
    /// `pattern`.
    pub open spec fn pattern_in_use(&self, pattern: Seq<char>) -> bool {
        ||| exists|v: int| 0 <= v < self.vms@.len() && has_pattern(#[trigger] self.vms@[v].1.services@, pattern)
        ||| exists|i: int|
            0 <= i < self.injects@.len() && ((#[trigger] self.injects@[i]).inner matches InjectType::Service {
                services,
                ..
            } && has_pattern(services@, pattern))
    }

    /// Every expected pattern, of the VMs' services and of the injects'
    /// services, compiles.
    pub open spec fn patterns_ok(&self) -> bool {
        &&& forall|v: int| 0 <= v < self.vms@.len() ==> services_patterns_ok(#[trigger] self.vms@[v].1.services@)
        &&& forall|i: int|
            0 <= i < self.injects@.len() ==> ((#[trigger] self.injects@[i]).inner matches InjectType::Service {
                services,
                ..
            } ==> services_patterns_ok(services@))
    }

    /// Names are unique where the configuration keys by name.
    pub open spec fn names_ok(&self) -> bool {
        &&& names_unique(self.teams@)
        &&& names_unique(self.vms@)
        &&& forall|j: int| 0 <= j < self.vms@.len() ==> names_unique(#[trigger] self.vms@[j].1.services@)
    }

    /// Every team's subnet is a subnet template.
    pub open spec fn teams_ok(&self) -> bool {
        forall|i: int| 0 <= i < self.teams@.len() ==> is_template_text(#[trigger] self.teams@[i].1.subnet@)
    }

    /// Every inject fits the VMs.
    pub open spec fn injects_ok(&self) -> bool {
        forall|i: int| 0 <= i < self.injects@.len() ==> inject_fits(self.vms@, #[trigger] self.injects@[i])
    }

    /// An enabled SLA rule has a positive threshold.
    pub open spec fn slas_ok(&self) -> bool {
        self.slas.enable ==> self.slas.max_consecutive_downs > 0
    }

    /// The configuration is consistent.
    pub open spec fn valid(&self) -> bool {
        self.names_ok() && self.teams_ok() && self.injects_ok() && self.patterns_ok() && self.slas_ok()
    }

    /// Two entries of `entries` are named `name`.
    pub open spec fn shared_name<T>(entries: Seq<(String, T)>, name: Seq<char>) -> bool {
        exists|i: int, j: int|
            0 <= i < j < entries.len() && #[trigger] named(entries, name, i) && #[trigger] named(
                entries,
                name,
                j,
            )
    }

    /// Two teams, two VMs or two services of one VM are named `name`.
    pub open spec fn refused_name(&self, name: Seq<char>) -> bool {
        ||| Self::shared_name(self.teams@, name)
        ||| Self::shared_name(self.vms@, name)
        ||| exists|v: int|
            0 <= v < self.vms@.len() && Self::shared_name(#[trigger] self.vms@[v].1.services@, name)
    }

    /// Team `team` has the subnet `subnet`, which is no subnet template.
    pub open spec fn refused_subnet(&self, team: Seq<char>, subnet: Seq<char>) -> bool {
        exists|i: int|
            #[trigger] named(self.teams@, team, i) && self.teams@[i].1.subnet@ == subnet
                && !is_template_text(subnet)
    }

    /// An inject titled `inject` names the VM `vm`, which does not exist.
    pub open spec fn refused_vm(&self, inject: Seq<char>, vm: Seq<char>) -> bool {
        &&& exists|i: int|
            0 <= i < self.injects@.len() && #[trigger] self.injects@[i].title@ == inject
                && self.injects@[i].inner is Service && self.injects@[i].inner->Service_vm@ == vm
        &&& forall|j: int| !#[trigger] named(self.vms@, vm, j)
    }

    /// An inject titled `inject` adds the service `service` to the VM `vm`,
    /// which already has a service of that name.
    pub open spec fn refused_service(&self, inject: Seq<char>, service: Seq<char>, vm: Seq<char>) -> bool {
        &&& exists|i: int, k: int|
            0 <= i < self.injects@.len() && #[trigger] self.injects@[i].title@ == inject
                && self.injects@[i].inner is Service && self.injects@[i].inner->Service_vm@ == vm
                && 0 <= k < self.injects@[i].inner->Service_services@.len()
                && #[trigger] self.injects@[i].inner->Service_services@[k].0@ == service
        &&& exists|j: int, l: int|
            #[trigger] named(self.vms@, vm, j) && #[trigger] named(self.vms@[j].1.services@, service, l)
    }

    /// Whether `e` names a true reason to refuse this configuration.
    pub open spec fn refused_by(&self, e: ConfigError) -> bool {
        match e {
            ConfigError::DuplicateName { name } => self.refused_name(name@),
            ConfigError::InvalidSubnet { team, subnet } => self.refused_subnet(team@, subnet@),
            ConfigError::UnknownVm { inject, vm } => self.refused_vm(inject@, vm@),
            ConfigError::DuplicateService { inject, service, vm } => self.refused_service(
                inject@,
                service@,
                vm@,
            ),
            ConfigError::ZeroSlaThreshold => self.slas.enable && self.slas.max_consecutive_downs
                == 0,
            ConfigError::InvalidPattern { pattern } => !regex_compiles(pattern@) && self.pattern_in_use(
                pattern@,
            ),
        }
    }
}

/// The index of the first entry named `name`.
pub fn find_named<T>(entries: &Vec<(String, T)>, name: &String) -> (r: Option<usize>)
    ensures
        r matches Some(j) ==> named(entries@, name@, j as int) && forall|k: int|
            0 <= k < j ==> !#[trigger] named(entries@, name@, k),
        r is None ==> forall|k: int| !#[trigger] named(entries@, name@, k),
{
    let mut j: usize = 0;
    while j < entries.len()
        invariant
            j <= entries@.len(),
            forall|k: int| 0 <= k < j ==> !#[trigger] named(entries@, name@, k),
        decreases entries@.len() - j,
    {
        if entries[j].0 == *name {
            return Some(j);
        }
        j = j + 1;
    }
    None
}

/// The index of an entry whose name an earlier entry has too, if any.
pub fn duplicate_name<T>(entries: &Vec<(String, T)>) -> (r: Option<usize>)
    ensures
        r is None <==> names_unique(entries@),
        r matches Some(j) ==> j < entries@.len() && exists|i: int|
            0 <= i < j && #[trigger] named(entries@, entries@[j as int].0@, i),
{
    let mut j: usize = 0;
    while j < entries.len()
        invariant
            j <= entries@.len(),
            names_unique(entries@.take(j as int)),
        decreases entries@.len() - j,
    {
        let mut i: usize = 0;
        while i < j
            invariant
                i <= j < entries@.len(),
                forall|k: int| 0 <= k < i ==> entries@[k].0@ != entries@[j as int].0@,
            decreases j - i,
        {
            if entries[i].0 == entries[j].0 {
                assert(named(entries@, entries@[j as int].0@, i as int));
                return Some(j);
            }
            i = i + 1;
        }
        j = j + 1;
        assert forall|a: int, b: int| 0 <= a < b < j implies #[trigger] entries@.take(j as int)[a].0@
            != #[trigger] entries@.take(j as int)[b].0@ by {
            if b < j - 1 {
                assert(entries@.take(j - 1)[a] == entries@[a]);
                assert(entries@.take(j - 1)[b] == entries@[b]);
            }
        }
    }
    assert(entries@.take(entries@.len() as int) =~= entries@);
    None
}

impl ConfigInner {
    /// Refuses shared names among teams, among VMs, and among the services
    /// of one VM.
    pub fn validate_names(&self) -> (r: Result<(), ConfigError>)
        ensures
            r is Ok <==> self.names_ok(),
            r matches Err(e) ==> e is DuplicateName && self.refused_by(e),
    {
        if let Some(j) = duplicate_name(&self.teams) {
            let name = self.teams[j].0.clone();
            proof {
                let i = choose|i: int| 0 <= i < j && #[trigger] named(self.teams@, name@, i);
                assert(named(self.teams@, name@, j as int));
                assert(Self::shared_name(self.teams@, name@));
            }
            return Err(ConfigError::DuplicateName { name });
        }
        if let Some(j) = duplicate_name(&self.vms) {
            let name = self.vms[j].0.clone();
            proof {
                let i = choose|i: int| 0 <= i < j && #[trigger] named(self.vms@, name@, i);
                assert(named(self.vms@, name@, j as int));
                assert(Self::shared_name(self.vms@, name@));
            }
            return Err(ConfigError::DuplicateName { name });
        }
        let mut v: usize = 0;
        while v < self.vms.len()
            invariant
                v <= self.vms@.len(),
                forall|w: int| 0 <= w < v ==> names_unique(#[trigger] self.vms@[w].1.services@),
            decreases self.vms@.len() - v,
        {
            if let Some(j) = duplicate_name(&self.vms[v].1.services) {
                let name = self.vms[v].1.services[j].0.clone();
                let ghost i = choose|i: int|
                    0 <= i < j && #[trigger] named(self.vms@[v as int].1.services@, name@, i);
                assert(named(self.vms@[v as int].1.services@, name@, j as int));
                assert(Self::shared_name(self.vms@[v as int].1.services@, name@));
                return Err(ConfigError::DuplicateName { name });
            }
            v = v + 1;
        }
        Ok(())
    }

    /// Refuses a team whose subnet is not a subnet template.
    pub fn validate_teams(&self) -> (r: Result<(), ConfigError>)
        ensures
            r is Ok <==> self.teams_ok(),
            r matches Err(e) ==> e is InvalidSubnet && self.refused_by(e),
    {
        let mut i: usize = 0;
        while i < self.teams.len()
            invariant
                i <= self.teams@.len(),
                forall|k: int| 0 <= k < i ==> is_template_text(#[trigger] self.teams@[k].1.subnet@),
            decreases self.teams@.len() - i,
        {
            if parse_subnet_template(self.teams[i].1.subnet.as_str()).is_none() {
                let team = self.teams[i].0.clone();
                let subnet = self.teams[i].1.subnet.clone();
                assert(named(self.teams@, team@, i as int));
                return Err(ConfigError::InvalidSubnet { team, subnet });
            }
            i = i + 1;
        }
        Ok(())
    }

    /// Refuses an inject that names an unknown VM or adds a service that
    /// its VM already has.
    pub fn validate_injects(&self) -> (r: Result<(), ConfigError>)
        requires
            names_unique(self.vms@),
        ensures
            r is Ok <==> self.injects_ok(),
            r matches Err(e) ==> (e is UnknownVm || e is DuplicateService) && self.refused_by(e),
    {
        let mut i: usize = 0;
        while i < self.injects.len()
            invariant
                names_unique(self.vms@),
                i <= self.injects@.len(),
                forall|k: int| 0 <= k < i ==> inject_fits(self.vms@, #[trigger] self.injects@[k]),
            decreases self.injects@.len() - i,
        {
            let inject = &self.injects[i];
            if let InjectType::Service { vm, services } = &inject.inner {
                match find_named(&self.vms, vm) {
                    None => {
                        let inject_title = inject.title.clone();
                        let vm_name = vm.clone();
                        return Err(ConfigError::UnknownVm { inject: inject_title, vm: vm_name });
                    },
                    Some(j) => {
                        let existing = &self.vms[j].1.services;
                        let mut k: usize = 0;
                        while k < services.len()
                            invariant
                                names_unique(self.vms@),
                                i < self.injects@.len(),
                                *inject == self.injects@[i as int],
                                inject.inner is Service,
                                inject.inner->Service_vm == *vm,
                                inject.inner->Service_services == *services,
                                named(self.vms@, vm@, j as int),
                                *existing == self.vms@[j as int].1.services,
                                k <= services@.len(),
                                forall|a: int, l: int|
                                    0 <= a < k && 0 <= l < existing@.len()
                                        ==> #[trigger] services@[a].0@ != #[trigger] existing@[l].0@,
                            decreases services@.len() - k,
                        {
                            if let Some(l) = find_named(existing, &services[k].0) {
                                let inject_title = inject.title.clone();
                                let service = services[k].0.clone();
                                let vm_name = vm.clone();
                                proof {
                                    assert(named(self.vms@, vm_name@, j as int));
                                    assert(named(self.vms@[j as int].1.services@, service@, l as int));
                                    assert(services@[k as int].0@ == service@);
                                    assert(self.refused_service(inject_title@, service@, vm_name@));
                                    if inject_fits(self.vms@, *inject) {
                                        let j2 = choose|j2: int| #[trigger] named(self.vms@, vm@, j2) && forall|a: int, b: int|
                                            0 <= a < services@.len() && 0 <= b < self.vms@[j2].1.services@.len()
                                                ==> #[trigger] services@[a].0@ != #[trigger] self.vms@[j2].1.services@[b].0@;
                                        assert(j2 == j as int);
                                        assert(services@[k as int].0@ != self.vms@[j2].1.services@[l as int].0@);
                                    }
                                }
                                return Err(
                                    ConfigError::DuplicateService {
                                        inject: inject_title,
                                        service,
                                        vm: vm_name,
                                    },
                                );
                            }
                            assert forall|l: int| 0 <= l < existing@.len() implies services@[k as int].0@
                                != #[trigger] existing@[l].0@ by {
                                assert(!named(existing@, services@[k as int].0@, l));
                            }
                            k = k + 1;
                        }
                        assert(named(self.vms@, vm@, j as int));
                    },
                }
            }
            i = i + 1;
        }
        Ok(())
    }

    /// Refuses a page pattern that does not compile.
    pub fn validate_patterns(&self) -> (r: Result<(), ConfigError>)
        ensures
            r is Ok <==> self.patterns_ok(),
            r matches Err(e) ==> e is InvalidPattern && self.refused_by(e),
    {
        let mut v: usize = 0;
        while v < self.vms.len()
            invariant
                v <= self.vms@.len(),
                forall|w: int| 0 <= w < v ==> services_patterns_ok(#[trigger] self.vms@[w].1.services@),
            decreases self.vms@.len() - v,
        {
            if let Some(pattern) = first_bad_pattern(&self.vms[v].1.services) {
                assert(has_pattern(self.vms@[v as int].1.services@, pattern@));
                return Err(ConfigError::InvalidPattern { pattern });
            }
            v = v + 1;
        }
        let mut i: usize = 0;
        while i < self.injects.len()
            invariant
                i <= self.injects@.len(),
                forall|w: int| 0 <= w < self.vms@.len() ==> services_patterns_ok(#[trigger] self.vms@[w].1.services@),
                forall|k: int|
                    0 <= k < i ==> ((#[trigger] self.injects@[k]).inner matches InjectType::Service {
                        services,
                        ..
                    } ==> services_patterns_ok(services@)),
            decreases self.injects@.len() - i,
        {
            if let InjectType::Service { services, .. } = &self.injects[i].inner {
                if let Some(pattern) = first_bad_pattern(services) {
                    assert(self.injects@[i as int].inner matches InjectType::Service { .. });
                    return Err(ConfigError::InvalidPattern { pattern });
                }
            }
            i = i + 1;
        }
        Ok(())
    }

    /// Refuses an enabled SLA rule with a threshold of zero.
    pub fn validate_slas(&self) -> (r: Result<(), ConfigError>)
        ensures
            r is Ok <==> self.slas_ok(),
            r matches Err(e) ==> e is ZeroSlaThreshold && self.refused_by(e),
    {
        if self.slas.enable && self.slas.max_consecutive_downs == 0 {
            Err(ConfigError::ZeroSlaThreshold)
        } else {
            Ok(())
        }
    }

    /// All of the checks above, in that order.
    pub fn validate(&self) -> (r: Result<(), ConfigError>)
        ensures
            r is Ok <==> self.valid(),
            r matches Err(e) ==> self.refused_by(e),
    {
        self.validate_names()?;
        self.validate_teams()?;
        self.validate_injects()?;
        self.validate_patterns()?;
        self.validate_slas()
    }
}

/// A configuration that passed validation.
#[derive(Clone, Debug)]
pub struct Config {
    pub inner: ConfigInner,
}

impl Config {
    /// Validates a loaded configuration.
    pub fn new(inner: ConfigInner) -> (r: Result<Config, ConfigError>)
        ensures
            r is Ok <==> inner.valid(),
            r matches Ok(c) ==> c.inner == inner,
            r matches Err(e) ==> inner.refused_by(e),
    {
        match inner.validate() {
            Ok(()) => Ok(Config { inner }),
            Err(e) => Err(e),
        }
    }

    /// The configuration is consistent.
    pub open spec fn wf(&self) -> bool {
        self.inner.valid()
    }
}

/// A pause of `interval` seconds shifted by `offset` seconds, never below
/// zero.
pub open spec fn shifted(interval: nat, offset: int) -> nat {
    if interval + offset < 0 {
        0
    } else {
        (interval + offset) as nat
    }
}

impl Timing {
    /// The pause before the next round when its start is shifted by
    /// `offset` seconds.
    pub fn interval_with_offset(&self, offset: i64) -> (r: u64)
        ensures
            r == shifted(self.interval as nat, offset as int),
    {
        let total: i128 = self.interval as i128 + offset as i128;
        if total < 0 {
            0
        } else {
            total as u64
        }
    }

    /// The pause before the next round, in seconds: the interval shifted by
    /// a random offset drawn from `-jitter..jitter`.
    pub fn jittered_interval(&self) -> (r: u64)
        ensures
            self.jitter == 0 ==> r == self.interval,
            self.jitter > 0 ==> exists|o: int|
                -(self.jitter as int) <= o < self.jitter && r == shifted(self.interval as nat, o),
    {
        if self.jitter == 0 {
            return self.interval as u64;
        }
        let offset = random_in_range(-(self.jitter as i64), self.jitter as i64);
        self.interval_with_offset(offset)
    }
}

/// A pattern of the services' pages that does not compile, if any.
pub fn first_bad_pattern(services: &Vec<(String, Service)>) -> (r: Option<String>)
    ensures
        r is None <==> services_patterns_ok(services@),
        r matches Some(p) ==> !regex_compiles(p@) && has_pattern(services@, p@),
{
    let mut k: usize = 0;
    while k < services.len()
        invariant
            k <= services@.len(),
            forall|j: int|
                0 <= j < k ==> ((#[trigger] services@[j]).1 matches Service::Http(h) ==> pages_patterns_ok(
                    h.pages@,
                )),
        decreases services@.len() - k,
    {
        if let Service::Http(http) = &services[k].1 {
            let mut i: usize = 0;
            while i < http.pages.len()
                invariant
                    k < services@.len(),
                    services@[k as int].1 == Service::Http(*http),
                    i <= http.pages@.len(),
                    forall|j: int|
                        0 <= j < i ==> ((#[trigger] http.pages@[j]).contains_regex matches Some(p)
                            ==> regex_compiles(p@)),
                decreases http.pages@.len() - i,
            {
                if let Some(pattern) = &http.pages[i].contains_regex {
                    if regex_search(pattern.as_str(), "").is_none() {
                        proof {
                            assert(!pages_patterns_ok(http.pages@));
                            assert(!services_patterns_ok(services@)) by {
                                assert(services@[k as int].1 == Service::Http(*http));
                            }
                        }
                        let found = pattern.clone();
                        assert(pattern_at(services@, k as int, i as int, found@));
                        return Some(found);
                    }
                }
                i = i + 1;
            }
        }
        k = k + 1;
    }
    None
}

} // verus!
