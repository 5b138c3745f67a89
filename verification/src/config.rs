//! Host configuration.

use vstd::prelude::*;
use crate::string_map::StringMap;
use crate::text::{begins_with, blank, chars_of, copy_texts, is_blank, quote, quoted_text, views, white_space};

verus! {

/// The hosts that can be reached, by their aliases.
#[derive(Debug, PartialEq)]
pub struct Config {
    pub hosts: StringMap<HostConfig>,
}

impl Clone for Config {
    fn clone(&self) -> (r: Self)
        ensures
            r.hosts.keys() == self.hosts.keys(),
            forall|i: int|
                0 <= i < self.hosts.entries().len() ==> (#[trigger] r.hosts.values()[i])@ == self.hosts.values()[i]@,
    {
        let r = Config { hosts: self.hosts.clone() };
        assert forall|i: int| 0 <= i < self.hosts.entries().len() implies (#[trigger] r.hosts.values()[i])@
            == self.hosts.values()[i]@ by {
            assert(cloned::<HostConfig>(self.hosts.values()[i], r.hosts.values()[i]));
        }
        r
    }
}

/// How one host is reached, and what may be done on it.
#[derive(Debug, PartialEq)]
pub struct HostConfig {
    pub address: String,
    pub port: u16,
    pub username: String,
    pub identity_file: String,
    pub python: String,
    pub allowed_roots: Vec<String>,
    pub max_operations: usize,
}

/// What a host configuration says.
#[verifier::ext_equal]
pub struct HostView {
    pub address: Seq<char>,
    pub port: u16,
    pub username: Seq<char>,
    pub identity_file: Seq<char>,
    pub python: Seq<char>,
    pub allowed_roots: Seq<Seq<char>>,
    pub max_operations: usize,
}

impl View for HostConfig {
    type V = HostView;

    open spec fn view(&self) -> HostView {
        HostView {
            address: self.address@,
            port: self.port,
            username: self.username@,
            identity_file: self.identity_file@,
            python: self.python@,
            allowed_roots: views(self.allowed_roots@),
            max_operations: self.max_operations,
        }
    }
}

impl Clone for HostConfig {
    fn clone(&self) -> (r: Self)
        ensures
            r@ == self@,
    {
        HostConfig {
            address: self.address.clone(),
            port: self.port,
            username: self.username.clone(),
            identity_file: self.identity_file.clone(),
            python: self.python.clone(),
            allowed_roots: copy_texts(&self.allowed_roots),
            max_operations: self.max_operations,
        }
    }
}

/// The port of a host that names none.
pub fn default_port() -> (r: u16)
    ensures
        r == 22,
{
    22
}

/// The interpreter of a host that names none.
pub fn default_python() -> (r: String)
    ensures
        r@ == "python3"@,
{
    "python3".to_owned()
}

/// The number of concurrent operations on a host that names none.
pub fn default_operations() -> (r: usize)
    ensures
        r == 4,
{
    4
}

/// Why a configuration is refused.
#[derive(Debug, PartialEq)]
pub enum ConfigError {
    NoHosts,
    InvalidAlias(String),
    MissingIdentity(String),
    RelativeRoots(String),
    NoOperations(String),
}

/// What is wrong with a configuration, and with which host.
pub enum ConfigProblem {
    NoHosts,
    InvalidAlias(Seq<char>),
    MissingIdentity(Seq<char>),
    RelativeRoots(Seq<char>),
    NoOperations(Seq<char>),
}

impl View for ConfigError {
    type V = ConfigProblem;

    open spec fn view(&self) -> ConfigProblem {
        match self {
            ConfigError::NoHosts => ConfigProblem::NoHosts,
            ConfigError::InvalidAlias(s) => ConfigProblem::InvalidAlias(s@),
            ConfigError::MissingIdentity(s) => ConfigProblem::MissingIdentity(s@),
            ConfigError::RelativeRoots(s) => ConfigProblem::RelativeRoots(s@),
            ConfigError::NoOperations(s) => ConfigProblem::NoOperations(s@),
        }
    }
}

impl ConfigProblem {
    /// The message for a reader.
    pub open spec fn message(self) -> Seq<char> {
        match self {
            ConfigProblem::NoHosts => "configuration has no hosts"@,
            ConfigProblem::InvalidAlias(s) => "invalid host alias "@ + quoted_text(s),
            ConfigProblem::MissingIdentity(s) => "host "@ + s + " is missing address or username"@,
            ConfigProblem::RelativeRoots(s) => "host "@ + s + " allowed_roots must contain absolute Linux paths"@,
            ConfigProblem::NoOperations(s) => "host "@ + s + " max_operations must be positive"@,
        }
    }
}

impl ConfigError {
    /// The message for a reader.
    pub fn message(&self) -> (r: String)
        ensures
            r@ == self@.message(),
    {
        match self {
            ConfigError::NoHosts => "configuration has no hosts".to_owned(),
            ConfigError::InvalidAlias(s) => {
                let mut out = "invalid host alias ".to_owned();
                out.append(quote(s.as_str()).as_str());
                out
            },
            ConfigError::MissingIdentity(s) => about_host(s.as_str(), " is missing address or username"),
            ConfigError::RelativeRoots(s) => about_host(
                s.as_str(),
                " allowed_roots must contain absolute Linux paths",
            ),
            ConfigError::NoOperations(s) => about_host(s.as_str(), " max_operations must be positive"),
        }
    }
}

fn about_host(alias: &str, what: &str) -> (r: String)
    ensures
        r@ == "host "@ + alias@ + what@,
{
    let mut out = "host ".to_owned();
    out.append(alias);
    out.append(what);
    out
}

/// The characters that an alias is made of.
pub open spec fn alias_char(c: char) -> bool {
    'a' <= c <= 'z' || 'A' <= c <= 'Z' || '0' <= c <= '9' || c == '-' || c == '_'
}

/// Whether `s` may name a host.
pub open spec fn valid_alias(s: Seq<char>) -> bool {
    s.len() > 0 && forall|i: int| 0 <= i < s.len() ==> alias_char(#[trigger] s[i])
}

/// Whether every one of `roots`, of which there is one, is an absolute path.
pub open spec fn absolute_roots(roots: Seq<Seq<char>>) -> bool {
    roots.len() > 0 && forall|i: int| 0 <= i < roots.len() ==> "/"@.is_prefix_of(#[trigger] roots[i])
}

/// The first thing that is wrong with a host under this alias.
pub open spec fn host_problem(alias: Seq<char>, host: HostView) -> Option<ConfigProblem> {
    if !valid_alias(alias) {
        Some(ConfigProblem::InvalidAlias(alias))
    } else if blank(host.address) || blank(host.username) {
        Some(ConfigProblem::MissingIdentity(alias))
    } else if !absolute_roots(host.allowed_roots) {
        Some(ConfigProblem::RelativeRoots(alias))
    } else if host.max_operations == 0 {
        Some(ConfigProblem::NoOperations(alias))
    } else {
        None
    }
}

/// The first thing that is wrong with the hosts of a list.
pub open spec fn first_problem(hosts: Seq<(String, HostConfig)>) -> Option<ConfigProblem>
    decreases hosts.len(),
{
    if hosts.len() == 0 {
        None
    } else {
        match host_problem(hosts[0].0@, hosts[0].1@) {
            Some(p) => Some(p),
            None => first_problem(hosts.drop_first()),
        }
    }
}

fn is_valid_alias(s: &str) -> (r: bool)
    ensures
        r == valid_alias(s@),
{
    let chars = chars_of(s);
    if chars.len() == 0 {
        return false;
    }
    let mut i: usize = 0;
    while i < chars.len()
        invariant
            chars@ == s@,
            0 < chars@.len(),
            i <= chars@.len(),
            forall|k: int| 0 <= k < i ==> alias_char(#[trigger] chars@[k]),
        decreases chars@.len() - i,
    {
        let c: char = chars[i];
        let fine = ('a' <= c && c <= 'z') || ('A' <= c && c <= 'Z') || ('0' <= c && c <= '9') || c == '-' || c == '_';
        if !fine {
            assert(!alias_char(s@[i as int]));
            return false;
        }
        i = i + 1;
    }
    true
}

fn are_absolute_roots(roots: &Vec<String>) -> (r: bool)
    ensures
        r == absolute_roots(views(roots@)),
{
    if roots.len() == 0 {
        return false;
    }
    let mut i: usize = 0;
    while i < roots.len()
        invariant
            0 < roots@.len(),
            i <= roots@.len(),
            forall|k: int| 0 <= k < i ==> "/"@.is_prefix_of(#[trigger] views(roots@)[k]),
        decreases roots@.len() - i,
    {
        if !begins_with(roots[i].as_str(), "/") {
            assert(!"/"@.is_prefix_of(views(roots@)[i as int]));
            return false;
        }
        i = i + 1;
    }
    true
}

impl Config {
    /// What is wrong with this configuration: that it has no hosts, or else
    /// what is wrong with the first host, in the order of aliases, that has
    /// something wrong with it.
    pub open spec fn problem(self) -> Option<ConfigProblem> {
        if self.hosts.entries().len() == 0 {
            Some(ConfigProblem::NoHosts)
        } else {
            first_problem(self.hosts.entries())
        }
    }

    /// Refuses a configuration that cannot be used.
    pub fn validate(&self) -> (r: Result<(), ConfigError>)
        ensures
            match r {
                Ok(()) => self.problem() is None,
                Err(e) => self.problem() == Some(e@),
            },
    {
        let count: usize = self.hosts.len();
        if count == 0 {
            return Err(ConfigError::NoHosts);
        }
        let ghost hosts = self.hosts.entries();
        let mut i: usize = 0;
        assert(hosts.skip(0) =~= hosts);
        while i < count
            invariant
                0 < count == hosts.len(),
                hosts == self.hosts.entries(),
                i <= count,
                first_problem(hosts) == first_problem(hosts.skip(i as int)),
            decreases count - i,
        {
            let alias = self.hosts.key_at(i);
            let host = self.hosts.value_at(i);
            proof {
                assert(hosts.skip(i as int)[0] == hosts[i as int]);
                assert(hosts.skip(i as int).drop_first() =~= hosts.skip(i + 1));
            }
            if !is_valid_alias(alias.as_str()) {
                return Err(ConfigError::InvalidAlias(alias.clone()));
            }
            if is_blank(host.address.as_str()) || is_blank(host.username.as_str()) {
                return Err(ConfigError::MissingIdentity(alias.clone()));
            }
            if !are_absolute_roots(&host.allowed_roots) {
                return Err(ConfigError::RelativeRoots(alias.clone()));
            }
            if host.max_operations == 0 {
                return Err(ConfigError::NoOperations(alias.clone()));
            }
            i = i + 1;
        }
        Ok(())
    }
}

/// A list of hosts has nothing wrong with it exactly if no host has.
pub proof fn law_no_problem_means_every_host_is_fine(hosts: Seq<(String, HostConfig)>)
    ensures
        first_problem(hosts) is None <==> forall|i: int|
            0 <= i < hosts.len() ==> host_problem((#[trigger] hosts[i]).0@, hosts[i].1@) is None,
    decreases hosts.len(),
{
    if hosts.len() > 0 {
        let rest = hosts.drop_first();
        law_no_problem_means_every_host_is_fine(rest);
        if host_problem(hosts[0].0@, hosts[0].1@) is None {
            if first_problem(rest) is None {
                assert forall|i: int| 0 <= i < hosts.len() implies host_problem(
                    (#[trigger] hosts[i]).0@,
                    hosts[i].1@,
                ) is None by {
                    if i > 0 {
                        assert(rest[i - 1] == hosts[i]);
                    }
                }
            } else if forall|i: int|
                0 <= i < hosts.len() ==> host_problem((#[trigger] hosts[i]).0@, hosts[i].1@) is None {
                assert forall|i: int| 0 <= i < rest.len() implies host_problem(
                    (#[trigger] rest[i]).0@,
                    rest[i].1@,
                ) is None by {
                    assert(rest[i] == hosts[i + 1]);
                }
            }
        }
    }
}

/// An alias of an accepted configuration holds nothing but letters, digits,
/// hyphens and underscores: no blank, no separator, no shell character.
pub proof fn law_accepted_aliases_are_plain(config: Config, i: int)
    requires
        config.problem() is None,
        0 <= i < config.hosts.entries().len(),
    ensures
        valid_alias(config.hosts.keys()[i]),
        absolute_roots(config.hosts.values()[i]@.allowed_roots),
        config.hosts.values()[i].max_operations > 0,
{
    law_no_problem_means_every_host_is_fine(config.hosts.entries());
    let entry = config.hosts.entries()[i];
    assert(host_problem(entry.0@, entry.1@) is None);
}

/// A host is accepted exactly if its alias is not empty and made of ASCII letters,
/// digits, hyphens and underscores, its address and its user name are not blank, it has
/// at least one allowed root and all of them begin with a slash, and at least one
/// operation may run at a time.
pub proof fn law_when_a_host_is_accepted(alias: Seq<char>, host: HostView)
    ensures
        host_problem(alias, host) is None <==> {
            &&& alias.len() > 0
            &&& forall|i: int|
                0 <= i < alias.len() ==> {
                    let c = #[trigger] alias[i];
                    'a' <= c <= 'z' || 'A' <= c <= 'Z' || '0' <= c <= '9' || c == '-' || c == '_'
                }
            &&& exists|i: int| 0 <= i < host.address.len() && !white_space(#[trigger] host.address[i])
            &&& exists|i: int| 0 <= i < host.username.len() && !white_space(#[trigger] host.username[i])
            &&& host.allowed_roots.len() > 0
            &&& forall|i: int|
                0 <= i < host.allowed_roots.len() ==> (#[trigger] host.allowed_roots[i]).len() > 0
                    && host.allowed_roots[i][0] == '/'
            &&& host.max_operations >= 1
        },
{
    reveal_strlit("/");
    assert("/"@ =~= seq!['/']);
    assert forall|root: Seq<char>| #[trigger] "/"@.is_prefix_of(root) <==> root.len() > 0 && root[0] == '/' by {
        if root.len() > 0 && root[0] == '/' {
            assert("/"@ =~= root.subrange(0, 1));
        }
        if "/"@.is_prefix_of(root) {
            assert("/"@[0] == root.subrange(0, 1)[0]);
        }
    }
    assert forall|i: int| 0 <= i < host.allowed_roots.len() implies ("/"@.is_prefix_of(
        #[trigger] host.allowed_roots[i],
    ) <==> host.allowed_roots[i].len() > 0 && host.allowed_roots[i][0] == '/') by {}
    if !absolute_roots(host.allowed_roots) && host.allowed_roots.len() > 0 {
        let i = choose|i: int| 0 <= i < host.allowed_roots.len() && !"/"@.is_prefix_of(#[trigger] host.allowed_roots[i]);
        assert(!(host.allowed_roots[i].len() > 0 && host.allowed_roots[i][0] == '/'));
    }
    if !valid_alias(alias) && alias.len() > 0 {
        let i = choose|i: int| 0 <= i < alias.len() && !alias_char(#[trigger] alias[i]);
        assert(!alias_char(alias[i]));
    }
    if !blank(host.address) {
        let i = choose|i: int| 0 <= i < host.address.len() && !white_space(#[trigger] host.address[i]);
        assert(!white_space(host.address[i]));
    }
    if !blank(host.username) {
        let i = choose|i: int| 0 <= i < host.username.len() && !white_space(#[trigger] host.username[i]);
        assert(!white_space(host.username[i]));
    }
}

/// What is wrong with a configuration is what is wrong with its first host, in the
/// order of aliases, that has something wrong with it; of that host the alias comes
/// first, then the address and the user name, then the roots, then the operations. A
/// configuration without hosts has that wrong with it.
pub proof fn law_the_first_problem_is_reported(hosts: Seq<(String, HostConfig)>, i: int)
    requires
        0 <= i < hosts.len(),
        forall|k: int| 0 <= k < i ==> host_problem((#[trigger] hosts[k]).0@, hosts[k].1@) is None,
        host_problem(hosts[i].0@, hosts[i].1@) is Some,
    ensures
        first_problem(hosts) == Some(
            if !valid_alias(hosts[i].0@) {
                ConfigProblem::InvalidAlias(hosts[i].0@)
            } else if blank(hosts[i].1.address@) || blank(hosts[i].1.username@) {
                ConfigProblem::MissingIdentity(hosts[i].0@)
            } else if !absolute_roots(views(hosts[i].1.allowed_roots@)) {
                ConfigProblem::RelativeRoots(hosts[i].0@)
            } else {
                ConfigProblem::NoOperations(hosts[i].0@)
            },
        ),
    decreases i,
{
    if i > 0 {
        let rest = hosts.drop_first();
        assert(host_problem(hosts[0].0@, hosts[0].1@) is None);
        assert forall|k: int| 0 <= k < i - 1 implies host_problem((#[trigger] rest[k]).0@, rest[k].1@) is None by {
            assert(rest[k] == hosts[k + 1]);
        }
        assert(rest[i - 1] == hosts[i]);
        law_the_first_problem_is_reported(rest, i - 1);
    }
}

/// A configuration is accepted exactly if it has a host and every host of it is.
pub proof fn law_when_a_configuration_is_accepted(config: Config)
    ensures
        config.problem() is None <==> config.hosts.entries().len() > 0 && forall|i: int|
            0 <= i < config.hosts.entries().len() ==> host_problem(
                (#[trigger] config.hosts.entries()[i]).0@,
                config.hosts.entries()[i].1@,
            ) is None,
        config.hosts.entries().len() == 0 ==> config.problem() == Some(ConfigProblem::NoHosts),
{
    law_no_problem_means_every_host_is_fine(config.hosts.entries());
}

/// The message of a refusal names the host and what is wrong with it.
pub proof fn law_refusals_name_the_host(alias: Seq<char>)
    ensures
        ConfigProblem::NoHosts.message() == "configuration has no hosts"@,
        ConfigProblem::InvalidAlias(alias).message() == "invalid host alias "@ + quoted_text(alias),
        ConfigProblem::MissingIdentity(alias).message() == "host "@ + alias + " is missing address or username"@,
        ConfigProblem::RelativeRoots(alias).message() == "host "@ + alias
            + " allowed_roots must contain absolute Linux paths"@,
        ConfigProblem::NoOperations(alias).message() == "host "@ + alias + " max_operations must be positive"@,
{
}

/// What a host configuration says is what stands in its fields.
pub proof fn law_a_host_says_what_it_holds(host: HostConfig)
    ensures
        host@.address == host.address@,
        host@.port == host.port,
        host@.username == host.username@,
        host@.identity_file == host.identity_file@,
        host@.python == host.python@,
        host@.allowed_roots.len() == host.allowed_roots@.len(),
        forall|i: int|
            0 <= i < host.allowed_roots@.len() ==> #[trigger] host@.allowed_roots[i] == host.allowed_roots@[i]@,
        host@.max_operations == host.max_operations,
{
}

} // verus!
