//! The servers that answered their last probe, each with the services that did.
use crate::address::{AddrView, Hostname, ServerAddr, Service};
use crate::features::{FeaturesView, ServerFeatures};
use crate::text::{decimal, tagged_decimal, texts};
use vstd::prelude::*;
use vstd::string::*;

verus! {

/// A server: a single IP address or onion name, with one or more services
/// exposed on different ports. The address is not kept here; it is the key
/// under which the registry holds the server.
#[derive(Debug)]
pub struct Server {
    /// The services that are healthy now.
    pub services: Vec<Service>,
    pub hostname: Hostname,
    /// What the server said of itself when it first turned out healthy.
    pub features: ServerFeatures,
}

/// A `Server` as contracts see it.
pub struct ServerView {
    pub services: Seq<Service>,
    pub hostname: Seq<char>,
    pub features: FeaturesView,
}

impl View for Server {
    type V = ServerView;

    open spec fn view(&self) -> ServerView {
        ServerView {
            services: self.services@,
            hostname: self.hostname@,
            features: self.features@,
        }
    }
}

impl ServerView {
    /// The compact strings that describe a server in a directory entry: `v`
    /// and its highest protocol version, then `p` and its pruning depth if it
    /// prunes, then each healthy service.
    pub open spec fn feature_texts(self) -> Seq<Seq<char>> {
        let version = seq![seq!['v'] + self.features.protocol_max.text()];
        let pruning = match self.features.pruning {
            Some(depth) => seq![seq!['p'] + decimal(depth as nat)],
            None => Seq::<Seq<char>>::empty(),
        };
        version + pruning + Seq::new(self.services.len(), |i: int| self.services[i].text())
    }
}

impl Server {
    pub fn new(hostname: Hostname, features: ServerFeatures) -> (server: Server)
        ensures
            server@ == (ServerView {
                services: Seq::<Service>::empty(),
                hostname: hostname@,
                features: features@,
            }),
    {
        Server { hostname, features, services: Vec::new() }
    }

    /// The server's features and services in the compact form of a directory
    /// entry.
    pub fn feature_strs(&self) -> (strs: Vec<String>)
        ensures
            texts(strs@) == self@.feature_texts(),
    {
        proof {
            reveal_strlit("v");
            reveal_strlit("p");
        }
        let mut strs: Vec<String> = Vec::new();
        let mut version = String::from_str("v");
        version.append(self.features.protocol_max.to_string().as_str());
        assert(version@ =~= seq!['v'] + self.features.protocol_max.text());
        strs.push(version);
        if let Some(depth) = self.features.pruning {
            let pruning = tagged_decimal("p", depth as u64);
            assert(pruning@ =~= seq!['p'] + decimal(depth as nat));
            strs.push(pruning);
        }
        let ghost all = self@.feature_texts();
        let ghost base = strs@.len();
        assert(texts(strs@) =~= all.take(base as int));
        let mut i: usize = 0;
        while i < self.services.len()
            invariant
                i <= self.services.len(),
                all == self@.feature_texts(),
                base + self.services.len() == all.len(),
                base == 1 + (if self.features.pruning is Some { 1nat } else { 0nat }),
                texts(strs@) =~= all.take(base + i),
            decreases self.services.len() - i,
        {
            let service = self.services[i].to_string();
            assert(all[base + i] == self.services@[i as int].text());
            assert(all.take(base + i + 1) =~= all.take(base + i).push(all[base + i]));
            strs.push(service);
            i += 1;
        }
        assert(texts(strs@) =~= all);
        strs
    }
}

/// A server as the directory lists it: its address, its host name, and its
/// feature strings.
#[derive(Debug)]
pub struct ServerEntry(pub ServerAddr, pub Hostname, pub Vec<String>);

impl View for ServerEntry {
    type V = (AddrView, Seq<char>, Seq<Seq<char>>);

    open spec fn view(&self) -> (AddrView, Seq<char>, Seq<Seq<char>>) {
        (self.0@, self.1@, texts(self.2@))
    }
}

/// The healthy servers by address, in the order in which they came in.
#[derive(Debug)]
pub struct HealthyServers {
    pub servers: Vec<(ServerAddr, Server)>,
}

impl View for HealthyServers {
    type V = Seq<(AddrView, ServerView)>;

    open spec fn view(&self) -> Seq<(AddrView, ServerView)> {
        Seq::new(self.servers@.len(), |i: int| (self.servers@[i].0@, self.servers@[i].1@))
    }
}

/// The addresses under which the registry holds servers.
pub open spec fn addrs(reg: Seq<(AddrView, ServerView)>) -> Seq<AddrView> {
    Seq::new(reg.len(), |i: int| reg[i].0)
}

/// Where the registry holds the server at `addr`, if it holds one.
pub open spec fn entry_index(reg: Seq<(AddrView, ServerView)>, addr: AddrView) -> Option<int> {
    addrs(reg).index_of_first(addr)
}

/// The registry holds a server at `addr`.
pub open spec fn has_entry(reg: Seq<(AddrView, ServerView)>, addr: AddrView) -> bool {
    entry_index(reg, addr) is Some
}

/// The registry holds a server at `addr` with `service` among its services.
pub open spec fn lists(reg: Seq<(AddrView, ServerView)>, addr: AddrView, service: Service) -> bool {
    match entry_index(reg, addr) {
        Some(i) => reg[i].1.services.contains(service),
        None => false,
    }
}

/// The registry once `service` at `addr` has turned out healthy: the server
/// that is there gains the service; where there is none, one is entered with
/// this host name, these features and this one service.
pub open spec fn with_service(
    reg: Seq<(AddrView, ServerView)>,
    addr: AddrView,
    hostname: Seq<char>,
    features: FeaturesView,
    service: Service,
) -> Seq<(AddrView, ServerView)> {
    match entry_index(reg, addr) {
        Some(i) => reg.update(
            i,
            (addr, ServerView { services: reg[i].1.services.push(service), ..reg[i].1 }),
        ),
        None => reg.push((addr, ServerView { services: seq![service], hostname, features })),
    }
}

/// The registry once `service` at `addr` has turned out unhealthy: the server
/// loses the service, and leaves the registry if that was its last.
pub open spec fn without_service(
    reg: Seq<(AddrView, ServerView)>,
    addr: AddrView,
    service: Service,
) -> Seq<(AddrView, ServerView)> {
    match entry_index(reg, addr) {
        Some(i) => {
            let rest = reg[i].1.services.remove_value(service);
            if rest.len() == 0 {
                reg.remove(i)
            } else {
                reg.update(i, (addr, ServerView { services: rest, ..reg[i].1 }))
            }
        },
        None => reg,
    }
}

/// What the directory lists for a registry: one entry per server, in order.
pub open spec fn directory(reg: Seq<(AddrView, ServerView)>) -> Seq<
    (AddrView, Seq<char>, Seq<Seq<char>>),
> {
    Seq::new(reg.len(), |i: int| (reg[i].0, reg[i].1.hostname, reg[i].1.feature_texts()))
}

/// The entries of each directory listing as contracts see them.
pub open spec fn entry_views(entries: Seq<ServerEntry>) -> Seq<
    (AddrView, Seq<char>, Seq<Seq<char>>),
> {
    Seq::new(entries.len(), |i: int| entries[i]@)
}

/// No address is held twice; every server has a service, and none twice.
pub open spec fn registry_wf(reg: Seq<(AddrView, ServerView)>) -> bool {
    &&& addrs(reg).no_duplicates()
    &&& forall|i: int|
        0 <= i < reg.len() ==> (#[trigger] reg[i]).1.services.len() > 0
            && reg[i].1.services.no_duplicates()
}

/// In a registry that holds no address twice, the server at an address is
/// whichever entry has that address.
pub proof fn lemma_entry_at(reg: Seq<(AddrView, ServerView)>, i: int)
    requires
        addrs(reg).no_duplicates(),
        0 <= i < reg.len(),
    ensures
        entry_index(reg, reg[i].0) == Some(i),
{
    let keys = addrs(reg);
    keys.index_of_first_ensures(reg[i].0);
    assert(keys[i] == reg[i].0);
}

/// The registry holds a server at `addr` exactly when one of its entries has
/// that address.
pub proof fn lemma_has_entry(reg: Seq<(AddrView, ServerView)>, addr: AddrView)
    ensures
        has_entry(reg, addr) <==> exists|i: int| 0 <= i < reg.len() && (#[trigger] reg[i]).0 == addr,
{
    let keys = addrs(reg);
    keys.index_of_first_ensures(addr);
    if has_entry(reg, addr) {
        let i = entry_index(reg, addr)->0;
        assert(reg[i].0 == addr);
    }
    if exists|i: int| 0 <= i < reg.len() && (#[trigger] reg[i]).0 == addr {
        let i = choose|i: int| 0 <= i < reg.len() && (#[trigger] reg[i]).0 == addr;
        assert(keys[i] == addr);
    }
}

/// In a registry that holds no address twice, a service is listed at `addr`
/// exactly when some entry has that address and the service.
pub proof fn lemma_lists(reg: Seq<(AddrView, ServerView)>, addr: AddrView, service: Service)
    requires
        addrs(reg).no_duplicates(),
    ensures
        lists(reg, addr, service) <==> exists|i: int|
            0 <= i < reg.len() && (#[trigger] reg[i]).0 == addr && reg[i].1.services.contains(
                service,
            ),
{
    let keys = addrs(reg);
    keys.index_of_first_ensures(addr);
    if lists(reg, addr, service) {
        let i = entry_index(reg, addr)->0;
        assert(reg[i].0 == addr && reg[i].1.services.contains(service));
    }
    if exists|i: int|
        0 <= i < reg.len() && (#[trigger] reg[i]).0 == addr && reg[i].1.services.contains(service) {
        let i = choose|i: int|
            0 <= i < reg.len() && (#[trigger] reg[i]).0 == addr && reg[i].1.services.contains(
                service,
            );
        lemma_entry_at(reg, i);
    }
}

/// Entering a service that is not listed keeps the registry well formed, and
/// lists that service besides those that were listed.
pub proof fn lemma_with_service(
    reg: Seq<(AddrView, ServerView)>,
    addr: AddrView,
    hostname: Seq<char>,
    features: FeaturesView,
    service: Service,
)
    requires
        registry_wf(reg),
        !lists(reg, addr, service),
    ensures
        registry_wf(with_service(reg, addr, hostname, features, service)),
        forall|a: AddrView, s: Service| #[trigger]
            lists(with_service(reg, addr, hostname, features, service), a, s) <==> lists(reg, a, s)
                || (a == addr && s == service),
{
    let after = with_service(reg, addr, hostname, features, service);
    let keys = addrs(reg);
    keys.index_of_first_ensures(addr);
    match entry_index(reg, addr) {
        Some(i) => {
            assert(addrs(after) =~= keys);
            assert forall|k: int| 0 <= k < after.len() implies (#[trigger] after[k]).1.services.len()
                > 0 && after[k].1.services.no_duplicates() by {
                if k != i {
                    assert(after[k] == reg[k]);
                }
            }
            assert forall|a: AddrView, s: Service| #[trigger]
                lists(after, a, s) <==> lists(reg, a, s) || (a == addr && s == service) by {
                if a == addr {
                    let old_services = reg[i].1.services;
                    if old_services.contains(s) {
                        let k = choose|k: int| 0 <= k < old_services.len() && old_services[k] == s;
                        assert(old_services.push(service)[k] == s);
                    }
                    assert(old_services.push(service)[old_services.len() as int] == service);
                } else {
                    keys.index_of_first_ensures(a);
                    match entry_index(reg, a) {
                        Some(j) => {
                            assert(after[j] == reg[j]);
                        },
                        None => {},
                    }
                }
            }
        },
        None => {
            assert(addrs(after) =~= keys.push(addr));
            assert(addrs(after).no_duplicates()) by {
                assert forall|x: int, y: int|
                    0 <= x < addrs(after).len() && 0 <= y < addrs(after).len() && x
                        != y implies addrs(after)[x] != addrs(after)[y] by {
                    if x < keys.len() {
                        assert(keys[x] == addrs(after)[x]);
                    }
                    if y < keys.len() {
                        assert(keys[y] == addrs(after)[y]);
                    }
                }
            }
            assert forall|k: int| 0 <= k < after.len() implies (#[trigger] after[k]).1.services.len()
                > 0 && after[k].1.services.no_duplicates() by {
                if k < reg.len() {
                    assert(after[k] == reg[k]);
                }
            }
            assert forall|a: AddrView, s: Service| #[trigger]
                lists(after, a, s) <==> lists(reg, a, s) || (a == addr && s == service) by {
                lemma_lists(after, a, s);
                lemma_lists(reg, a, s);
                let last = reg.len() as int;
                assert(after[last].0 == addr);
                assert(seq![service][0] == service);
                if lists(reg, a, s) {
                    let k = choose|k: int|
                        0 <= k < reg.len() && (#[trigger] reg[k]).0 == a
                            && reg[k].1.services.contains(s);
                    assert(after[k] == reg[k]);
                }
                if lists(after, a, s) {
                    let k = choose|k: int|
                        0 <= k < after.len() && (#[trigger] after[k]).0 == a
                            && after[k].1.services.contains(s);
                    if k < reg.len() {
                        assert(after[k] == reg[k]);
                    }
                }
            }
        },
    }
}

/// A service that was entered is listed, whatever the registry held.
pub proof fn lemma_listed_after_entering(
    reg: Seq<(AddrView, ServerView)>,
    addr: AddrView,
    hostname: Seq<char>,
    features: FeaturesView,
    service: Service,
)
    ensures
        lists(with_service(reg, addr, hostname, features, service), addr, service),
{
    let after = with_service(reg, addr, hostname, features, service);
    let keys = addrs(reg);
    keys.index_of_first_ensures(addr);
    match entry_index(reg, addr) {
        Some(i) => {
            assert(addrs(after) =~= keys);
            let services = reg[i].1.services.push(service);
            assert(services[services.len() - 1] == service);
        },
        None => {
            assert(addrs(after) =~= keys.push(addr));
            lemma_first_at(addrs(after), addr, reg.len() as int);
            assert(seq![service][0] == service);
        },
    }
}

/// Taking the one occurrence of a value out of a sequence without duplicates
/// leaves the other values, each once.
pub proof fn lemma_remove_value<A>(s: Seq<A>, v: A)
    requires
        s.no_duplicates(),
        s.contains(v),
    ensures
        s.remove_value(v).no_duplicates(),
        s.remove_value(v).len() == s.len() - 1,
        forall|t: A| #[trigger] s.remove_value(v).contains(t) <==> s.contains(t) && t != v,
{
    s.index_of_first_ensures(v);
    let i = s.index_of_first(v)->0;
    let r = s.remove(i);
    s.remove_ensures(i);
    assert forall|x: int, y: int| 0 <= x < r.len() && 0 <= y < r.len() && x != y implies r[x]
        != r[y] by {
        let sx = if x < i { x } else { x + 1 };
        let sy = if y < i { y } else { y + 1 };
        assert(r[x] == s[sx]);
        assert(r[y] == s[sy]);
    }
    assert forall|t: A| #[trigger] r.contains(t) <==> s.contains(t) && t != v by {
        if r.contains(t) {
            let x = choose|x: int| 0 <= x < r.len() && r[x] == t;
            let sx = if x < i { x } else { x + 1 };
            assert(r[x] == s[sx]);
        }
        if s.contains(t) && t != v {
            let sx = choose|sx: int| 0 <= sx < s.len() && s[sx] == t;
            let x = if sx < i { sx } else { sx - 1 };
            assert(r[x] == s[sx]);
        }
    }
}

/// Taking a listed service out keeps the registry well formed, and leaves
/// listed what was listed besides that service.
pub proof fn lemma_without_service(
    reg: Seq<(AddrView, ServerView)>,
    addr: AddrView,
    service: Service,
)
    requires
        registry_wf(reg),
        lists(reg, addr, service),
    ensures
        registry_wf(without_service(reg, addr, service)),
        forall|a: AddrView, s: Service| #[trigger]
            lists(without_service(reg, addr, service), a, s) <==> lists(reg, a, s) && !(a == addr
                && s == service),
{
    let after = without_service(reg, addr, service);
    let keys = addrs(reg);
    keys.index_of_first_ensures(addr);
    let i = entry_index(reg, addr)->0;
    let rest = reg[i].1.services.remove_value(service);
    lemma_remove_value(reg[i].1.services, service);
    if rest.len() == 0 {
        reg.remove_ensures(i);
        assert(after == reg.remove(i));
        assert forall|k: int| 0 <= k < after.len() implies after[k] == reg[if k < i {
            k
        } else {
            k + 1
        }] by {}
        assert(addrs(after).no_duplicates()) by {
            assert forall|x: int, y: int|
                0 <= x < addrs(after).len() && 0 <= y < addrs(after).len() && x
                    != y implies addrs(after)[x] != addrs(after)[y] by {
                let sx = if x < i { x } else { x + 1 };
                let sy = if y < i { y } else { y + 1 };
                assert(addrs(after)[x] == keys[sx]);
                assert(addrs(after)[y] == keys[sy]);
            }
        }
        assert forall|k: int| 0 <= k < after.len() implies (#[trigger] after[k]).1.services.len() > 0
            && after[k].1.services.no_duplicates() by {
            let sk = if k < i { k } else { k + 1 };
            assert(after[k] == reg[sk]);
        }
        assert forall|a: AddrView, s: Service| #[trigger]
            lists(after, a, s) <==> lists(reg, a, s) && !(a == addr && s == service) by {
            lemma_lists(after, a, s);
            lemma_lists(reg, a, s);
            if lists(after, a, s) {
                let k = choose|k: int|
                    0 <= k < after.len() && (#[trigger] after[k]).0 == a
                        && after[k].1.services.contains(s);
                let sk = if k < i { k } else { k + 1 };
                assert(after[k] == reg[sk]);
                assert(keys[sk] == a && keys[i] == addr);
            }
            if lists(reg, a, s) && !(a == addr && s == service) {
                let sk = choose|sk: int|
                    0 <= sk < reg.len() && (#[trigger] reg[sk]).0 == a
                        && reg[sk].1.services.contains(s);
                if sk == i {
                    assert(rest.contains(s));
                } else {
                    let k = if sk < i { sk } else { sk - 1 };
                    assert(after[k] == reg[sk]);
                }
            }
        }
    } else {
        assert(addrs(after) =~= keys);
        assert forall|k: int| 0 <= k < after.len() implies (#[trigger] after[k]).1.services.len() > 0
            && after[k].1.services.no_duplicates() by {
            if k != i {
                assert(after[k] == reg[k]);
            }
        }
        assert forall|a: AddrView, s: Service| #[trigger]
            lists(after, a, s) <==> lists(reg, a, s) && !(a == addr && s == service) by {
            if a != addr {
                keys.index_of_first_ensures(a);
                match entry_index(reg, a) {
                    Some(j) => {
                        assert(after[j] == reg[j]);
                    },
                    None => {},
                }
            }
        }
    }
}

/// The first position of `needle` in `s`, given that none comes before `i`
/// and one is at `i`.
proof fn lemma_first_at<A>(s: Seq<A>, needle: A, i: int)
    requires
        0 <= i < s.len(),
        s[i] == needle,
        forall|k: int| 0 <= k < i ==> s[k] != needle,
    ensures
        s.index_of_first(needle) == Some(i),
{
    s.index_of_first_ensures(needle);
}

/// `needle` has no first position in `s`, given that it is nowhere in it.
proof fn lemma_first_nowhere<A>(s: Seq<A>, needle: A)
    requires
        forall|k: int| 0 <= k < s.len() ==> s[k] != needle,
    ensures
        s.index_of_first(needle) is None,
{
    s.index_of_first_ensures(needle);
}

/// The position of the first `service` in `services`.
fn service_position(services: &Vec<Service>, service: Service) -> (found: Option<usize>)
    ensures
        match found {
            Some(i) => services@.index_of_first(service) == Some(i as int),
            None => services@.index_of_first(service) is None,
        },
{
    let mut i: usize = 0;
    while i < services.len()
        invariant
            i <= services.len(),
            forall|k: int| 0 <= k < i ==> services@[k] != service,
        decreases services.len() - i,
    {
        if services[i] == service {
            proof {
                lemma_first_at(services@, service, i as int);
            }
            return Some(i);
        }
        i += 1;
    }
    proof {
        lemma_first_nowhere(services@, service);
    }
    None
}

impl HealthyServers {
    /// No address is held twice, and every server has a service and none
    /// twice. A new registry is so, and every method keeps it so.
    pub open spec fn wf(&self) -> bool {
        registry_wf(self@)
    }

    pub fn new() -> (registry: HealthyServers)
        ensures
            registry@ == Seq::<(AddrView, ServerView)>::empty(),
            registry.wf(),
    {
        let registry = HealthyServers { servers: Vec::new() };
        assert(registry@ =~= Seq::<(AddrView, ServerView)>::empty());
        registry
    }

    pub fn len(&self) -> (n: usize)
        ensures
            n == self@.len(),
    {
        self.servers.len()
    }

    /// Where the server at `addr` is held.
    pub fn position(&self, addr: &ServerAddr) -> (found: Option<usize>)
        ensures
            match found {
                Some(i) => i < self@.len() && self@[i as int].0 == addr@ && entry_index(
                    self@,
                    addr@,
                ) == Some(i as int),
                None => entry_index(self@, addr@) is None,
            },
    {
        let mut i: usize = 0;
        while i < self.servers.len()
            invariant
                i <= self.servers.len(),
                forall|k: int| 0 <= k < i ==> addrs(self@)[k] != addr@,
            decreases self.servers.len() - i,
        {
            if self.servers[i].0.same_as(addr) {
                proof {
                    lemma_first_at(addrs(self@), addr@, i as int);
                }
                return Some(i);
            }
            i += 1;
        }
        proof {
            lemma_first_nowhere(addrs(self@), addr@);
        }
        None
    }

    /// Whether the server at `addr` is held with `service` among its services.
    pub fn lists(&self, addr: &ServerAddr, service: Service) -> (listed: bool)
        ensures
            listed == lists(self@, addr@, service),
    {
        match self.position(addr) {
            Some(i) => {
                let found = service_position(&self.servers[i].1.services, service);
                proof {
                    self@[i as int].1.services.index_of_first_ensures(service);
                }
                found.is_some()
            },
            None => false,
        }
    }

    /// Enters `service` at `addr` as healthy. The host name and the features
    /// are kept only where the server is new to the registry.
    pub fn add_service(
        &mut self,
        addr: &ServerAddr,
        hostname: &Hostname,
        service: Service,
        features: ServerFeatures,
    )
        requires
            !lists(old(self)@, addr@, service),
        ensures
            final(self)@ == with_service(old(self)@, addr@, hostname@, features@, service),
            lists(final(self)@, addr@, service),
            old(self).wf() ==> final(self).wf(),
    {
        proof {
            if self.wf() {
                lemma_with_service(self@, addr@, hostname@, features@, service);
            } else {
                lemma_listed_after_entering(self@, addr@, hostname@, features@, service);
            }
        }
        match self.position(addr) {
            Some(i) => {
                let mut entry = self.servers.remove(i);
                entry.1.services.push(service);
                let ghost changed = entry;
                self.servers.insert(i, entry);
                assert(self.servers@[i as int] == changed);
                assert(self@[i as int] == (
                    addr@,
                    ServerView {
                        services: old(self)@[i as int].1.services.push(service),
                        ..old(self)@[i as int].1
                    },
                ));
                assert(self@ =~= with_service(old(self)@, addr@, hostname@, features@, service));
            },
            None => {
                let mut server = Server::new(hostname.clone(), features);
                server.services.push(service);
                self.servers.push((addr.clone(), server));
                assert(self@ =~= with_service(old(self)@, addr@, hostname@, features@, service));
            },
        }
    }

    /// Takes `service` at `addr` out, and the server with it if it has no
    /// other healthy service left.
    pub fn drop_service(&mut self, addr: &ServerAddr, service: Service)
        requires
            lists(old(self)@, addr@, service),
        ensures
            final(self)@ == without_service(old(self)@, addr@, service),
            old(self).wf() ==> final(self).wf() && !lists(final(self)@, addr@, service),
    {
        proof {
            if self.wf() {
                lemma_without_service(self@, addr@, service);
            }
        }
        match self.position(addr) {
            Some(i) => {
                let mut entry = self.servers.remove(i);
                proof {
                    entry.1.services@.index_of_first_ensures(service);
                }
                match service_position(&entry.1.services, service) {
                    Some(k) => {
                        entry.1.services.remove(k);
                    },
                    None => {},
                }
                assert(entry.1.services@ == old(self)@[i as int].1.services.remove_value(service));
                if entry.1.services.len() > 0 {
                    let ghost changed = entry;
                    self.servers.insert(i, entry);
                    assert(self.servers@[i as int] == changed);
                    assert(self@[i as int] == (
                        addr@,
                        ServerView {
                            services: old(self)@[i as int].1.services.remove_value(service),
                            ..old(self)@[i as int].1
                        },
                    ));
                }
                assert(self@ =~= without_service(old(self)@, addr@, service));
            },
            None => {},
        }
    }

    /// The directory: every server with its address, host name and feature
    /// strings.
    pub fn entries(&self) -> (listing: Vec<ServerEntry>)
        ensures
            entry_views(listing@) == directory(self@),
    {
        let mut listing: Vec<ServerEntry> = Vec::new();
        let mut i: usize = 0;
        while i < self.servers.len()
            invariant
                i <= self.servers.len(),
                entry_views(listing@) =~= directory(self@).take(i as int),
            decreases self.servers.len() - i,
        {
            let addr = self.servers[i].0.clone();
            let hostname = self.servers[i].1.hostname.clone();
            let strs = self.servers[i].1.feature_strs();
            let entry = ServerEntry(addr, hostname, strs);
            assert(entry@ == directory(self@)[i as int]);
            assert(directory(self@).take(i + 1) =~= directory(self@).take(i as int).push(
                directory(self@)[i as int],
            ));
            listing.push(entry);
            i += 1;
        }
        assert(entry_views(listing@) =~= directory(self@));
        listing
    }
}

} // verus!
