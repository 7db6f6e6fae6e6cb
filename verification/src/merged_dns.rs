//! Desired, current and saved DNS resolver state, merged.

use vstd::prelude::*;

use crate::addr;
use crate::dns::{
    DnsCacheConfig, DnsCacheConfigView, DnsResolver, DnsResolverClient, DnsResolverClientView,
    DnsResolverView,
};
use crate::error;
use crate::error::NipartError;
use crate::value::{Value, contains, empty_list, push};

verus! {

/// Merged DNS resolver state.
///
/// `servers`, `searches` and `options` hold the static configuration to persist
/// after this apply: an undefined desired property preserves the current static
/// value, while an empty `config` purges all static entries.
#[derive(Clone, Debug, PartialEq, Eq)]
pub struct MergedDnsResolver {
    pub desired: Option<DnsResolver>,
    pub current: DnsResolver,
    /// Effective resolver of the host before this apply, used to preserve
    /// dynamic entries.
    pub running: Option<DnsResolverClient>,
    pub servers: Vec<String>,
    pub searches: Vec<String>,
    pub options: Vec<String>,
    /// Dynamic nameservers learned from DHCP/IPv6-RA/VPN which must be
    /// preserved in the final resolver configuration.
    pub dynamic_servers: Vec<String>,
    /// The nameservers that the previous apply wrote into the resolver of the
    /// host: the previous static configuration plus the bind address of the
    /// previous cache. They are told apart from the dynamic ones so that a
    /// removed static nameserver is not preserved as if it was learned from
    /// DHCP.
    pub previous_static_servers: Vec<String>,
    /// Cache configuration to persist after a successful apply. An undefined
    /// cache in the desired state preserves the previously saved cache.
    pub cache_for_save: Option<DnsCacheConfig>,
}

/// What a [MergedDnsResolver] stands for.
#[verifier::ext_equal]
pub struct MergedDnsResolverView {
    pub desired: Option<DnsResolverView>,
    pub current: DnsResolverView,
    pub running: Option<DnsResolverClientView>,
    pub servers: Seq<Seq<char>>,
    pub searches: Seq<Seq<char>>,
    pub options: Seq<Seq<char>>,
    pub dynamic_servers: Seq<Seq<char>>,
    pub previous_static_servers: Seq<Seq<char>>,
    pub cache_for_save: Option<DnsCacheConfigView>,
}

impl View for MergedDnsResolver {
    type V = MergedDnsResolverView;

    open spec fn view(&self) -> MergedDnsResolverView {
        MergedDnsResolverView {
            desired: self.desired.deep_view(),
            current: self.current.deep_view(),
            running: self.running.deep_view(),
            servers: self.servers.deep_view(),
            searches: self.searches.deep_view(),
            options: self.options.deep_view(),
            dynamic_servers: self.dynamic_servers.deep_view(),
            previous_static_servers: self.previous_static_servers.deep_view(),
            cache_for_save: self.cache_for_save.deep_view(),
        }
    }
}

impl DeepView for MergedDnsResolver {
    type V = MergedDnsResolverView;

    open spec fn deep_view(&self) -> MergedDnsResolverView {
        self@
    }
}

impl Value for MergedDnsResolver {
    fn dup(&self) -> (res: Self) {
        MergedDnsResolver {
            desired: self.desired.dup(),
            current: self.current.dup(),
            running: self.running.dup(),
            servers: self.servers.dup(),
            searches: self.searches.dup(),
            options: self.options.dup(),
            dynamic_servers: self.dynamic_servers.dup(),
            previous_static_servers: self.previous_static_servers.dup(),
            cache_for_save: self.cache_for_save.dup(),
        }
    }

    fn same(&self, other: &Self) -> (res: bool) {
        self.desired.same(&other.desired) && self.current.same(&other.current) && self.running.same(&other.running) && self.servers.same(&other.servers) && self.searches.same(&other.searches) && self.options.same(&other.options) && self.dynamic_servers.same(&other.dynamic_servers) && self.previous_static_servers.same(&other.previous_static_servers) && self.cache_for_save.same(&other.cache_for_save)
    }
}

/// The texts of a list, none when it is undefined.
pub open spec fn texts(list: Option<Seq<Seq<char>>>) -> Seq<Seq<char>> {
    list.unwrap_or(Seq::empty())
}

/// The texts of a list, none when it is undefined.
fn list_or_empty(list: &Option<Vec<String>>) -> (res: Vec<String>)
    ensures
        res.deep_view() == texts(list.deep_view()),
{
    match list {
        Some(list) => list.dup(),
        None => empty_list(),
    }
}

/// `acc` with the dynamic nameservers from `i` on that are neither in
/// `servers` nor in `previous`.
pub open spec fn kept_dynamic_from(
    dynamic: Seq<Seq<char>>,
    servers: Seq<Seq<char>>,
    previous: Seq<Seq<char>>,
    i: int,
    acc: Seq<Seq<char>>,
) -> Seq<Seq<char>>
    decreases dynamic.len() - i,
{
    if i < 0 || i >= dynamic.len() {
        acc
    } else if servers.contains(dynamic[i]) || previous.contains(dynamic[i]) {
        kept_dynamic_from(dynamic, servers, previous, i + 1, acc)
    } else {
        kept_dynamic_from(dynamic, servers, previous, i + 1, acc.push(dynamic[i]))
    }
}

/// The static client configuration before an apply: the saved one, or what
/// the host shows when nothing is saved.
pub open spec fn previous_config(
    current: DnsResolverView,
    saved: Option<DnsResolverView>,
) -> Option<DnsResolverClientView> {
    match saved {
        Some(saved) if saved.config is Some => saved.config,
        _ => current.config,
    }
}

/// A static list after an apply: the desired one when it is defined, else the
/// previous one; none when the desired configuration is empty.
pub open spec fn static_list(
    desired: Option<DnsResolverClientView>,
    desired_list: Option<Seq<Seq<char>>>,
    previous_list: Option<Seq<Seq<char>>>,
) -> Seq<Seq<char>> {
    match desired {
        Some(config) if config.empty() => Seq::empty(),
        _ => texts(if desired_list is Some { desired_list } else { previous_list }),
    }
}

/// A list of the client configuration.
pub open spec fn server_list(config: Option<DnsResolverClientView>) -> Option<Seq<Seq<char>>> {
    match config {
        Some(config) => config.server,
        None => None,
    }
}

/// A list of the client configuration.
pub open spec fn search_list(config: Option<DnsResolverClientView>) -> Option<Seq<Seq<char>>> {
    match config {
        Some(config) => config.search,
        None => None,
    }
}

/// A list of the client configuration.
pub open spec fn option_list(config: Option<DnsResolverClientView>) -> Option<Seq<Seq<char>>> {
    match config {
        Some(config) => config.options,
        None => None,
    }
}

/// The nameservers that the previous apply wrote: the previous static ones,
/// and the address that the saved cache listens on, unless it is one of them.
pub open spec fn previous_servers(
    servers: Seq<Seq<char>>,
    saved: Option<DnsResolverView>,
) -> Seq<Seq<char>> {
    match saved {
        Some(saved) if saved.cache is Some => match addr::socket_addr(saved.cache->0.bind) {
            Some(bind) if !servers.contains(addr::ip_text(bind.ip)) => servers.push(
                addr::ip_text(bind.ip),
            ),
            _ => servers,
        },
        _ => servers,
    }
}

/// Adds the address that the saved cache listens on, unless it is there.
fn add_cache_address(servers: &mut Vec<String>, saved: &Option<DnsResolver>)
    ensures
        final(servers).deep_view() == previous_servers(
            old(servers).deep_view(),
            saved.deep_view(),
        ),
{
    if let Some(saved) = saved {
        if let Some(cache) = &saved.cache {
            if let Some(bind) = cache.bind_addr() {
                let server = bind.ip.to_text();
                if !contains(servers, &server) {
                    push(servers, server);
                }
            }
        }
    }
}

/// What [MergedDnsResolver::new] returns.
pub open spec fn merged_dns(
    desired: DnsResolverView,
    current: DnsResolverView,
    saved: Option<DnsResolverView>,
) -> MergedDnsResolverView {
    let previous = previous_config(current, saved);
    MergedDnsResolverView {
        desired: if desired.empty() { None } else { Some(desired) },
        current: DnsResolverView { config: previous, ..current },
        running: current.running,
        servers: static_list(desired.config, server_list(desired.config), server_list(previous)),
        searches: static_list(desired.config, search_list(desired.config), search_list(previous)),
        options: static_list(desired.config, option_list(desired.config), option_list(previous)),
        dynamic_servers: texts(server_list(current.running)),
        previous_static_servers: previous_servers(texts(server_list(previous)), saved),
        cache_for_save: if desired.cache is Some {
            desired.cache
        } else {
            match saved {
                Some(saved) => saved.cache,
                None => None,
            }
        },
    }
}

impl MergedDnsResolverView {
    /// Nothing desired, nothing present, nothing saved.
    pub open spec fn undefined() -> MergedDnsResolverView {
        merged_dns(DnsResolverView::undefined(), DnsResolverView::undefined(), None)
    }

    /// The static client configuration to persist.
    pub open spec fn client(self) -> DnsResolverClientView {
        DnsResolverClientView {
            server: Some(self.servers),
            search: Some(self.searches),
            options: Some(self.options),
        }
    }

    /// The cache configuration to apply.
    pub open spec fn desired_cache(self) -> Option<DnsCacheConfigView> {
        match self.desired {
            Some(desired) => desired.cache,
            None => None,
        }
    }

    /// The state to save.
    pub open spec fn for_save(self) -> DnsResolverView {
        DnsResolverView {
            running: None,
            config: Some(self.client()),
            cache: self.cache_for_save,
        }
    }

    /// The state to apply.
    pub open spec fn for_apply(self) -> DnsResolverView {
        DnsResolverView {
            running: Some(
                DnsResolverClientView {
                    server: Some(self.servers + self.dynamic_servers),
                    search: Some(self.searches),
                    options: Some(self.options),
                },
            ),
            ..(match self.desired {
                Some(desired) => desired,
                None => DnsResolverView::undefined(),
            })
        }
    }
}

impl Default for MergedDnsResolver {
    fn default() -> (res: Self)
        ensures
            res@ == MergedDnsResolverView::undefined(),
    {
        MergedDnsResolver {
            desired: None,
            current: DnsResolver::default(),
            running: None,
            servers: empty_list(),
            searches: empty_list(),
            options: empty_list(),
            dynamic_servers: empty_list(),
            previous_static_servers: empty_list(),
            cache_for_save: None,
        }
    }
}

impl MergedDnsResolver {
    /// Merges the desired state with the current and the saved one.
    pub fn new(desired: DnsResolver, current: DnsResolver, saved: Option<DnsResolver>) -> (res:
        Result<Self, NipartError>)
        ensures
            error::same_result(res, Ok(merged_dns(desired@, current@, saved.deep_view()))),
    {
        let mut current = current;
        if let Some(saved) = &saved {
            if saved.config.is_some() {
                current.config = saved.config.dup();
            }
        }
        let running = current.running.dup();
        let mut servers: Vec<String> = empty_list();
        let mut searches: Vec<String> = empty_list();
        let mut options: Vec<String> = empty_list();
        if let Some(config) = &current.config {
            servers = list_or_empty(&config.server);
            searches = list_or_empty(&config.search);
            options = list_or_empty(&config.options);
        }
        let dynamic_servers = match &running {
            Some(running) => list_or_empty(&running.server),
            None => empty_list(),
        };
        let mut previous_static_servers = servers.dup();
        add_cache_address(&mut previous_static_servers, &saved);
        let cache_for_save = if desired.cache.is_some() {
            desired.cache.dup()
        } else {
            match &saved {
                Some(saved) => saved.cache.dup(),
                None => None,
            }
        };
        if let Some(config) = &desired.config {
            if config.is_empty() {
                servers = empty_list();
                searches = empty_list();
                options = empty_list();
            } else {
                if let Some(list) = &config.server {
                    servers = list.dup();
                }
                if let Some(list) = &config.search {
                    searches = list.dup();
                }
                if let Some(list) = &config.options {
                    options = list.dup();
                }
            }
        }
        Ok(
            MergedDnsResolver {
                desired: if desired.is_empty() {
                    None
                } else {
                    Some(desired)
                },
                current,
                running,
                servers,
                searches,
                options,
                dynamic_servers,
                previous_static_servers,
                cache_for_save,
            },
        )
    }

    /// Dynamic nameservers to keep after this apply: entries of the host
    /// resolver which were not written by the previous apply and are not going
    /// to be written by this one.
    pub fn apply_dynamic_servers(&self) -> (res: Vec<String>)
        ensures
            res.deep_view() == kept_dynamic_from(
                self@.dynamic_servers,
                self@.servers,
                self@.previous_static_servers,
                0,
                Seq::empty(),
            ),
    {
        let ghost views = self.dynamic_servers.deep_view();
        let mut res: Vec<String> = empty_list();
        let mut i: usize = 0;
        while i < self.dynamic_servers.len()
            invariant
                i <= self.dynamic_servers.len(),
                views == self.dynamic_servers.deep_view(),
                kept_dynamic_from(
                    views,
                    self@.servers,
                    self@.previous_static_servers,
                    0,
                    Seq::empty(),
                ) == kept_dynamic_from(
                    views,
                    self@.servers,
                    self@.previous_static_servers,
                    i as int,
                    res.deep_view(),
                ),
            decreases self.dynamic_servers.len() - i,
        {
            let server = &self.dynamic_servers[i];
            assert(views[i as int] == server@);
            if !contains(&self.servers, server) && !contains(&self.previous_static_servers, server) {
                push(&mut res, server.dup());
            }
            i = i + 1;
        }
        res
    }

    /// Whether the desired state did not mention the DNS resolver at all.
    pub fn is_unchanged(&self) -> (res: bool)
        ensures
            res == (self@.desired is None),
    {
        self.desired.is_none()
    }

    /// The static client configuration to persist.
    pub fn config(&self) -> (res: DnsResolverClient)
        ensures
            res@ == self@.client(),
    {
        DnsResolverClient {
            server: Some(self.servers.dup()),
            search: Some(self.searches.dup()),
            options: Some(self.options.dup()),
        }
    }

    /// The cache configuration to apply.
    pub fn cache(&self) -> (res: Option<&DnsCacheConfig>)
        ensures
            match res {
                Some(cache) => self@.desired_cache() == Some(cache@),
                None => self@.desired_cache() is None,
            },
    {
        match &self.desired {
            Some(desired) => desired.cache.as_ref(),
            None => None,
        }
    }

    /// The DNS resolver state to save.
    pub fn gen_state_for_save(&self) -> (res: DnsResolver)
        ensures
            res@ == self@.for_save(),
    {
        DnsResolver {
            running: None,
            config: Some(self.config()),
            cache: self.cache_for_save.dup(),
        }
    }

    /// The DNS resolver diff to report to the client.
    pub fn gen_state_for_apply(&self) -> (res: DnsResolver)
        ensures
            res@ == self@.for_apply(),
    {
        let mut res = match &self.desired {
            Some(desired) => desired.dup(),
            None => DnsResolver::default(),
        };
        let mut servers = self.servers.dup();
        let ghost dynamic = self.dynamic_servers.deep_view();
        let mut i: usize = 0;
        assert(servers.deep_view() =~= self@.servers + dynamic.subrange(0, 0));
        while i < self.dynamic_servers.len()
            invariant
                i <= self.dynamic_servers.len(),
                dynamic == self.dynamic_servers.deep_view(),
                servers.deep_view() == self@.servers + dynamic.subrange(0, i as int),
            decreases self.dynamic_servers.len() - i,
        {
            assert(dynamic[i as int] == self.dynamic_servers[i as int]@);
            push(&mut servers, self.dynamic_servers[i].dup());
            i = i + 1;
            assert(servers.deep_view() =~= self@.servers + dynamic.subrange(0, i as int));
        }
        assert(dynamic.subrange(0, i as int) =~= dynamic);
        res.running = Some(
            DnsResolverClient {
                server: Some(servers),
                search: Some(self.searches.dup()),
                options: Some(self.options.dup()),
            },
        );
        res
    }
}

/// A state that does not mention the DNS resolver changes nothing that is
/// saved: the saved static configuration and the saved cache are saved again.
pub proof fn law_undefined_dns_keeps_saved(current: DnsResolverView, saved: DnsResolverView)
    requires
        saved.config is Some,
    ensures
        ({
            let merged = merged_dns(DnsResolverView::undefined(), current, Some(saved));
            &&& merged.desired is None
            &&& merged.desired_cache() is None
            &&& merged.for_save().cache == saved.cache
            &&& texts(merged.for_save().config->0.server) == texts(saved.config->0.server)
            &&& texts(merged.for_save().config->0.search) == texts(saved.config->0.search)
            &&& texts(merged.for_save().config->0.options) == texts(saved.config->0.options)
        }),
{
}

/// An empty desired client configuration purges all static settings.
pub proof fn law_empty_config_purges(
    desired: DnsResolverView,
    current: DnsResolverView,
    saved: Option<DnsResolverView>,
)
    requires
        desired.config == Some(DnsResolverClientView::undefined()),
    ensures
        merged_dns(desired, current, saved).client() == (DnsResolverClientView {
            server: Some(Seq::empty()),
            search: Some(Seq::empty()),
            options: Some(Seq::empty()),
        }),
{
}

/// Everything that was kept is a dynamic nameserver which was neither static
/// before nor is static now.
proof fn lemma_kept_dynamic(
    dynamic: Seq<Seq<char>>,
    servers: Seq<Seq<char>>,
    previous: Seq<Seq<char>>,
    i: int,
    acc: Seq<Seq<char>>,
    server: Seq<char>,
)
    requires
        0 <= i <= dynamic.len(),
    ensures
        kept_dynamic_from(dynamic, servers, previous, i, acc).contains(server) == (acc.contains(
            server,
        ) || (dynamic.subrange(i, dynamic.len() as int).contains(server) && !servers.contains(
            server,
        ) && !previous.contains(server))),
    decreases dynamic.len() - i,
{
    let rest = dynamic.subrange(i, dynamic.len() as int);
    if i < dynamic.len() {
        let x = dynamic[i];
        let tail = dynamic.subrange(i + 1, dynamic.len() as int);
        assert(rest =~= seq![x] + tail);
        assert(rest.contains(server) == (x == server || tail.contains(server))) by {
            if x == server {
                assert(rest[0] == server);
            }
            if tail.contains(server) {
                let k = choose|k: int| 0 <= k < tail.len() && tail[k] == server;
                assert(rest[k + 1] == server);
            }
            if rest.contains(server) && x != server {
                let k = choose|k: int| 0 <= k < rest.len() && rest[k] == server;
                assert(tail[k - 1] == server);
            }
        }
        if servers.contains(x) || previous.contains(x) {
            lemma_kept_dynamic(dynamic, servers, previous, i + 1, acc, server);
        } else {
            lemma_kept_dynamic(dynamic, servers, previous, i + 1, acc.push(x), server);
            assert(acc.push(x).contains(server) == (acc.contains(server) || x == server)) by {
                if acc.contains(server) {
                    let k = choose|k: int| 0 <= k < acc.len() && acc[k] == server;
                    assert(acc.push(x)[k] == server);
                }
                if x == server {
                    assert(acc.push(x)[acc.len() as int] == server);
                }
                if acc.push(x).contains(server) && x != server {
                    let k = choose|k: int| 0 <= k < acc.push(x).len() && acc.push(x)[k] == server;
                    assert(acc[k] == server);
                }
            }
        }
    }
}

/// A nameserver is kept as a dynamic one exactly when the host uses it and it
/// was neither a static one before the apply nor is one after it.
pub proof fn law_dynamic_servers(merged: MergedDnsResolverView, server: Seq<char>)
    ensures
        kept_dynamic_from(
            merged.dynamic_servers,
            merged.servers,
            merged.previous_static_servers,
            0,
            Seq::empty(),
        ).contains(server) == (merged.dynamic_servers.contains(server) && !merged.servers.contains(
            server,
        ) && !merged.previous_static_servers.contains(server)),
{
    lemma_kept_dynamic(
        merged.dynamic_servers,
        merged.servers,
        merged.previous_static_servers,
        0,
        Seq::empty(),
        server,
    );
    assert(merged.dynamic_servers.subrange(0, merged.dynamic_servers.len() as int)
        =~= merged.dynamic_servers);
}

/// What the previous apply wrote is the previous static configuration and the
/// address of the saved cache, and nothing else. None of it is kept as if it
/// was learned.
pub proof fn law_previous_servers(
    desired: DnsResolverView,
    current: DnsResolverView,
    saved: Option<DnsResolverView>,
    server: Seq<char>,
)
    ensures
        ({
            let merged = merged_dns(desired, current, saved);
            let cached = saved is Some && saved->0.cache is Some && addr::socket_addr(
                saved->0.cache->0.bind,
            ) is Some && server == addr::ip_text(
                addr::socket_addr(saved->0.cache->0.bind)->0.ip,
            );
            &&& merged.previous_static_servers.contains(server) == (texts(
                server_list(previous_config(current, saved)),
            ).contains(server) || cached)
            &&& merged.previous_static_servers.contains(server) ==> !kept_dynamic_from(
                merged.dynamic_servers,
                merged.servers,
                merged.previous_static_servers,
                0,
                Seq::empty(),
            ).contains(server)
        }),
{
    let merged = merged_dns(desired, current, saved);
    law_dynamic_servers(merged, server);
    let servers = texts(server_list(previous_config(current, saved)));
    let all = merged.previous_static_servers;
    if servers.contains(server) {
        assert(all[servers.index_of(server)] == server);
    }
    if all.contains(server) && all.index_of(server) < servers.len() {
        assert(servers[all.index_of(server)] == server);
    }
    if all.len() > servers.len() {
        assert(all[servers.len() as int] == all.last());
    }
}

/// A static list that is desired is saved and applied as it is; one that is left
/// undefined, in a state that does not purge all of them, stays what was saved,
/// or what the host shows when nothing is saved. The same lists are saved and
/// applied, and the nameservers that the host uses come after the static ones.
pub proof fn law_static_settings(
    desired: DnsResolverView,
    current: DnsResolverView,
    saved: Option<DnsResolverView>,
)
    ensures
        ({
            let merged = merged_dns(desired, current, saved);
            let kept = merged.for_save().config->0;
            let run = merged.for_apply().running->0;
            let before = if saved is Some && saved->0.config is Some {
                saved->0.config
            } else {
                current.config
            };
            let learned = if current.running is Some && current.running->0.server is Some {
                current.running->0.server->0
            } else {
                Seq::empty()
            };
            let stays = desired.config is None || desired.config->0
                != DnsResolverClientView::undefined();
            let left = desired.config.unwrap_or(DnsResolverClientView::undefined());
            let past = before.unwrap_or(DnsResolverClientView::undefined());
            &&& left.server is Some ==> kept.server == left.server
            &&& left.search is Some ==> kept.search == left.search
            &&& left.options is Some ==> kept.options == left.options
            &&& left.server is None && stays ==> kept.server == Some(
                past.server.unwrap_or(Seq::empty()),
            )
            &&& left.search is None && stays ==> kept.search == Some(
                past.search.unwrap_or(Seq::empty()),
            )
            &&& left.options is None && stays ==> kept.options == Some(
                past.options.unwrap_or(Seq::empty()),
            )
            &&& run.server == Some(kept.server->0 + learned)
            &&& run.search == kept.search
            &&& run.options == kept.options
            &&& merged.for_save().running is None
        }),
{
}

/// A desired cache is saved and applied; a cache that is not desired is not
/// applied, and the saved one stays saved.
pub proof fn law_cache(
    desired: DnsResolverView,
    current: DnsResolverView,
    saved: Option<DnsResolverView>,
)
    ensures
        ({
            let merged = merged_dns(desired, current, saved);
            &&& merged.desired_cache() == desired.cache
            &&& merged.for_apply().cache == desired.cache
            &&& desired.cache is Some ==> merged.for_save().cache == desired.cache
            &&& desired.cache is None && saved is Some ==> merged.for_save().cache
                == saved->0.cache
            &&& desired.cache is None && saved is None ==> merged.for_save().cache is None
        }),
{
}

} // verus!
