use vstd::prelude::*;

use crate::config::{EndhostApiConfig, NetworkConfig, RouterConfig, SnapConfig, SocketAddress};
use crate::entities::{
    access_point_matches, build_access_point, build_host_api, build_router, data_plane_error,
    endhost_api_error, first_error, host_api_matches, lemma_first_error_stays, router_error,
    router_matches, snap_bindings, snap_error, AccessPoint, Binding, HostApi, Router,
};
use crate::error::ConfigError;
use crate::topology::{build_topology_from_config, topology_of, Topology};

verus! {

/// The logical model of a simulated network: its topology and every
/// entity, each under its generated identifier.
pub struct SystemState {
    pub topology: Topology,
    pub access_points: Vec<AccessPoint>,
    pub host_apis: Vec<HostApi>,
    pub routers: Vec<Router>,
}

/// Where the runtime listens for each entity, kept apart from the logical
/// model.
pub struct BindingOverlay {
    pub bindings: Vec<Binding>,
}

/// Everything the network runtime needs to start.
pub struct RuntimeInput {
    pub state: SystemState,
    pub overlay: BindingOverlay,
    pub management_listen_addr: SocketAddress,
}

/// How many identifiers the first `n` access points take: one each, and one
/// per data plane.
pub open spec fn snap_ids_used(snaps: Seq<SnapConfig>, n: nat) -> int
    decreases n,
{
    if n == 0 {
        0
    } else {
        snap_ids_used(snaps, (n - 1) as nat) + 1 + snaps[n - 1].data_planes@.len()
    }
}

/// The bindings of the first `n` access points, in declaration order.
pub open spec fn snaps_bindings(snaps: Seq<SnapConfig>, n: nat) -> Seq<Binding>
    decreases n,
{
    if n == 0 {
        Seq::empty()
    } else {
        snaps_bindings(snaps, (n - 1) as nat) + snap_bindings(
            snaps[n - 1],
            snap_ids_used(snaps, (n - 1) as nat),
        )
    }
}

/// The bindings of the host APIs, numbered from `base`.
pub open spec fn host_api_bindings(apis: Seq<EndhostApiConfig>, base: int) -> Seq<Binding> {
    Seq::new(
        apis.len(),
        |i: int| Binding { id: (base + i) as u64, addr: apis[i].listening_addr->Some_0 },
    )
}

/// The bindings of the first `n` routers numbered from `base`: one for each
/// router that has a listening address.
pub open spec fn router_bindings(routers: Seq<RouterConfig>, n: nat, base: int) -> Seq<Binding>
    decreases n,
{
    if n == 0 {
        Seq::empty()
    } else {
        let prev = router_bindings(routers, (n - 1) as nat, base);
        match routers[n - 1].listening_addr {
            Some(a) => prev.push(Binding { id: (base + n - 1) as u64, addr: a }),
            None => prev,
        }
    }
}

/// How many identifiers a whole description takes.
pub open spec fn entity_count(c: NetworkConfig) -> int {
    snap_ids_used(c.snaps@, c.snaps@.len()) + c.endhost_apis@.len() + c.routers@.len()
}

/// The first error of a description: the topology, then the access points,
/// the host APIs and the routers, each in declaration order.
pub open spec fn config_error(c: NetworkConfig) -> Option<ConfigError> {
    match topology_of(c.topology) {
        Err(e) => Some(e),
        Ok(_) => match first_error(c.snaps@, |s: SnapConfig| snap_error(s), c.snaps@.len()) {
            Some(e) => Some(e),
            None => match first_error(
                c.endhost_apis@,
                |a: EndhostApiConfig| endhost_api_error(a),
                c.endhost_apis@.len(),
            ) {
                Some(e) => Some(e),
                None => first_error(c.routers@, |r: RouterConfig| router_error(r), c.routers@.len()),
            },
        },
    }
}

/// The model and overlay that a valid description yields: identifiers are
/// handed out in declaration order, access points (each followed by its
/// data planes) first, then host APIs, then routers.
pub open spec fn network_matches(n: RuntimeInput, c: NetworkConfig) -> bool {
    let s = snap_ids_used(c.snaps@, c.snaps@.len());
    let a = c.endhost_apis@.len();
    &&& topology_of(c.topology) == Ok::<_, ConfigError>(n.state.topology@)
    &&& n.state.topology@.wf()
    &&& n.state.access_points@.len() == c.snaps@.len()
    &&& forall|i: int|
        0 <= i < c.snaps@.len() ==> access_point_matches(
            #[trigger] n.state.access_points@[i],
            c.snaps@[i],
            snap_ids_used(c.snaps@, i as nat),
        )
    &&& n.state.host_apis@.len() == a
    &&& forall|i: int|
        0 <= i < a ==> host_api_matches(#[trigger] n.state.host_apis@[i], c.endhost_apis@[i], s + i)
    &&& n.state.routers@.len() == c.routers@.len()
    &&& forall|i: int|
        0 <= i < c.routers@.len() ==> router_matches(
            #[trigger] n.state.routers@[i],
            c.routers@[i],
            s + a + i,
        )
    &&& n.overlay.bindings@ == snaps_bindings(c.snaps@, c.snaps@.len()) + host_api_bindings(
        c.endhost_apis@,
        s,
    ) + router_bindings(c.routers@, c.routers@.len(), s + a)
    &&& n.management_listen_addr == c.management_listen_addr
}

pub proof fn lemma_first_error_none<T>(s: Seq<T>, f: spec_fn(T) -> Option<ConfigError>, n: nat, k: int)
    requires
        first_error(s, f, n) is None,
        0 <= k < n,
    ensures
        f(s[k]) is None,
    decreases n,
{
    if k < n - 1 {
        lemma_first_error_none(s, f, (n - 1) as nat, k);
    }
}

proof fn lemma_snap_ids_monotone(snaps: Seq<SnapConfig>, n: nat, m: nat)
    requires
        n <= m,
    ensures
        0 <= snap_ids_used(snaps, n) <= snap_ids_used(snaps, m),
    decreases m,
{
    if n < m {
        lemma_snap_ids_monotone(snaps, n, (m - 1) as nat);
    } else if n > 0 {
        lemma_snap_ids_monotone(snaps, (n - 1) as nat, (n - 1) as nat);
    }
}

/// Registers the access points in declaration order, numbering from zero.
fn assemble_access_points(snaps: &Vec<SnapConfig>) -> (r: Result<(Vec<AccessPoint>, Vec<Binding>), ConfigError>)
    requires
        snap_ids_used(snaps@, snaps@.len()) <= u64::MAX,
    ensures
        first_error(snaps@, |s: SnapConfig| snap_error(s), snaps@.len()) matches Some(e) ==> r
            == Err::<(Vec<AccessPoint>, Vec<Binding>), ConfigError>(e),
        first_error(snaps@, |s: SnapConfig| snap_error(s), snaps@.len()) is None ==> (r matches Ok(
            (aps, bs),
        ) && aps@.len() == snaps@.len() && (forall|i: int|
            0 <= i < snaps@.len() ==> access_point_matches(
                #[trigger] aps@[i],
                snaps@[i],
                snap_ids_used(snaps@, i as nat),
            )) && bs@ == snaps_bindings(snaps@, snaps@.len())),
{
    let ghost f = |s: SnapConfig| snap_error(s);
    let mut aps: Vec<AccessPoint> = Vec::new();
    let mut bs: Vec<Binding> = Vec::new();
    let mut next: u64 = 0;
    let mut i: usize = 0;
    while i < snaps.len()
        invariant
            i <= snaps@.len(),
            f == (|s: SnapConfig| snap_error(s)),
            snap_ids_used(snaps@, snaps@.len()) <= u64::MAX,
            next == snap_ids_used(snaps@, i as nat),
            first_error(snaps@, f, i as nat) is None,
            aps@.len() == i,
            forall|k: int|
                0 <= k < i ==> access_point_matches(
                    #[trigger] aps@[k],
                    snaps@[k],
                    snap_ids_used(snaps@, k as nat),
                ),
            bs@ == snaps_bindings(snaps@, i as nat),
        decreases snaps.len() - i,
    {
        proof {
            lemma_snap_ids_monotone(snaps@, (i + 1) as nat, snaps@.len());
        }
        let c = &snaps[i];
        let ap = match build_access_point(c, next) {
            Ok(ap) => ap,
            Err(e) => {
                proof {
                    assert(f(snaps@[i as int]) == Some(e));
                    assert(first_error(snaps@, f, (i + 1) as nat) == Some(e));
                    lemma_first_error_stays(snaps@, f, (i + 1) as nat, snaps@.len());
                }
                return Err(e);
            },
        };
        let ghost before = bs@;
        let ghost fd = |d: crate::config::DataPlaneConfig| data_plane_error(d);
        let n_planes = c.data_planes.len();
        bs.push(Binding { id: next, addr: c.listening_addr.unwrap() });
        let mut j: usize = 0;
        while j < n_planes
            invariant
                j <= n_planes == c.data_planes@.len(),
                c == snaps@[i as int],
                snap_error(*c) is None,
                c.listening_addr is Some,
                fd == (|d: crate::config::DataPlaneConfig| data_plane_error(d)),
                next + 1 + n_planes <= u64::MAX,
                bs@ == before + snap_bindings(*c, next as int).subrange(0, j + 1),
            decreases n_planes - j,
        {
            proof {
                lemma_first_error_none(c.data_planes@, fd, n_planes as nat, j as int);
            }
            bs.push(Binding { id: next + 1 + j as u64, addr: c.data_planes[j].listening_addr.unwrap() });
            j = j + 1;
            proof {
                assert(bs@ =~= before + snap_bindings(*c, next as int).subrange(0, j + 1));
            }
        }
        proof {
            assert(snap_bindings(*c, next as int).subrange(0, n_planes + 1) =~= snap_bindings(*c, next as int));
        }
        aps.push(ap);
        next = next + 1 + n_planes as u64;
        i = i + 1;
    }
    Ok((aps, bs))
}

/// Registers the host APIs in declaration order, numbering from `base`.
fn assemble_host_apis(apis: &Vec<EndhostApiConfig>, base: u64) -> (r: Result<(Vec<HostApi>, Vec<Binding>), ConfigError>)
    requires
        base + apis@.len() <= u64::MAX,
    ensures
        first_error(apis@, |a: EndhostApiConfig| endhost_api_error(a), apis@.len()) matches Some(e)
            ==> r == Err::<(Vec<HostApi>, Vec<Binding>), ConfigError>(e),
        first_error(apis@, |a: EndhostApiConfig| endhost_api_error(a), apis@.len()) is None ==> (r matches Ok(
            (hs, bs),
        ) && hs@.len() == apis@.len() && (forall|i: int|
            0 <= i < apis@.len() ==> host_api_matches(#[trigger] hs@[i], apis@[i], base + i))
            && bs@ == host_api_bindings(apis@, base as int)),
{
    let ghost f = |a: EndhostApiConfig| endhost_api_error(a);
    let mut hs: Vec<HostApi> = Vec::new();
    let mut bs: Vec<Binding> = Vec::new();
    let mut i: usize = 0;
    while i < apis.len()
        invariant
            i <= apis@.len(),
            base + apis@.len() <= u64::MAX,
            f == (|a: EndhostApiConfig| endhost_api_error(a)),
            first_error(apis@, f, i as nat) is None,
            hs@.len() == i,
            forall|k: int| 0 <= k < i ==> host_api_matches(#[trigger] hs@[k], apis@[k], base + k),
            bs@ == host_api_bindings(apis@, base as int).subrange(0, i as int),
        decreases apis.len() - i,
    {
        let c = &apis[i];
        let h = match build_host_api(c, base + i as u64) {
            Ok(h) => h,
            Err(e) => {
                proof {
                    assert(f(apis@[i as int]) == Some(e));
                    lemma_first_error_stays(apis@, f, (i + 1) as nat, apis@.len());
                }
                return Err(e);
            },
        };
        hs.push(h);
        bs.push(Binding { id: base + i as u64, addr: c.listening_addr.unwrap() });
        i = i + 1;
        proof {
            assert(bs@ =~= host_api_bindings(apis@, base as int).subrange(0, i as int));
        }
    }
    proof {
        assert(host_api_bindings(apis@, base as int).subrange(0, i as int) =~= host_api_bindings(apis@, base as int));
    }
    Ok((hs, bs))
}

/// Registers the routers in declaration order, numbering from `base`.
fn assemble_routers(routers: &Vec<RouterConfig>, base: u64) -> (r: Result<(Vec<Router>, Vec<Binding>), ConfigError>)
    requires
        base + routers@.len() <= u64::MAX,
    ensures
        first_error(routers@, |x: RouterConfig| router_error(x), routers@.len()) matches Some(e)
            ==> r == Err::<(Vec<Router>, Vec<Binding>), ConfigError>(e),
        first_error(routers@, |x: RouterConfig| router_error(x), routers@.len()) is None ==> (r matches Ok(
            (rs, bs),
        ) && rs@.len() == routers@.len() && (forall|i: int|
            0 <= i < routers@.len() ==> router_matches(#[trigger] rs@[i], routers@[i], base + i))
            && bs@ == router_bindings(routers@, routers@.len(), base as int)),
{
    let ghost f = |x: RouterConfig| router_error(x);
    let mut rs: Vec<Router> = Vec::new();
    let mut bs: Vec<Binding> = Vec::new();
    let mut i: usize = 0;
    while i < routers.len()
        invariant
            i <= routers@.len(),
            base + routers@.len() <= u64::MAX,
            f == (|x: RouterConfig| router_error(x)),
            first_error(routers@, f, i as nat) is None,
            rs@.len() == i,
            forall|k: int| 0 <= k < i ==> router_matches(#[trigger] rs@[k], routers@[k], base + k),
            bs@ == router_bindings(routers@, i as nat, base as int),
        decreases routers.len() - i,
    {
        let c = &routers[i];
        let x = match build_router(c, base + i as u64) {
            Ok(x) => x,
            Err(e) => {
                proof {
                    assert(f(routers@[i as int]) == Some(e));
                    lemma_first_error_stays(routers@, f, (i + 1) as nat, routers@.len());
                }
                return Err(e);
            },
        };
        rs.push(x);
        match c.listening_addr {
            Some(a) => bs.push(Binding { id: base + i as u64, addr: a }),
            None => {},
        }
        i = i + 1;
    }
    Ok((rs, bs))
}

/// Compiles a network description into the runtime's input: the topology,
/// then every access point, host API and router in declaration order, each
/// under a fresh identifier, with the addresses they listen on. Any error
/// aborts the whole load.
pub fn load_network(config: &NetworkConfig) -> (r: Result<RuntimeInput, ConfigError>)
    requires
        entity_count(*config) <= u64::MAX,
    ensures
        config_error(*config) matches Some(e) ==> r == Err::<RuntimeInput, ConfigError>(e),
        config_error(*config) is None ==> (r matches Ok(n) && network_matches(n, *config)),
{
    let topology = match build_topology_from_config(&config.topology) {
        Ok(t) => t,
        Err(e) => return Err(e),
    };
    let (access_points, mut bindings) = match assemble_access_points(&config.snaps) {
        Ok(p) => p,
        Err(e) => return Err(e),
    };
    let ghost snap_bs = bindings@;
    let s = snap_count(&config.snaps);
    let (host_apis, mut api_bindings) = match assemble_host_apis(&config.endhost_apis, s) {
        Ok(p) => p,
        Err(e) => return Err(e),
    };
    let ghost api_bs = api_bindings@;
    let (routers, mut router_bs) = match assemble_routers(
        &config.routers,
        s + config.endhost_apis.len() as u64,
    ) {
        Ok(p) => p,
        Err(e) => return Err(e),
    };
    let ghost rt_bs = router_bs@;
    bindings.append(&mut api_bindings);
    bindings.append(&mut router_bs);
    assert(bindings@ =~= snap_bs + api_bs + rt_bs);
    Ok(compose(
        SystemState { topology, access_points, host_apis, routers },
        BindingOverlay { bindings },
        config.management_listen_addr,
    ))
}

/// How many identifiers the access points take.
fn snap_count(snaps: &Vec<SnapConfig>) -> (r: u64)
    requires
        snap_ids_used(snaps@, snaps@.len()) <= u64::MAX,
    ensures
        r == snap_ids_used(snaps@, snaps@.len()),
{
    let mut n: u64 = 0;
    let mut i: usize = 0;
    while i < snaps.len()
        invariant
            i <= snaps@.len(),
            snap_ids_used(snaps@, snaps@.len()) <= u64::MAX,
            n == snap_ids_used(snaps@, i as nat),
        decreases snaps.len() - i,
    {
        proof {
            lemma_snap_ids_monotone(snaps@, (i + 1) as nat, snaps@.len());
        }
        n = n + 1 + snaps[i].data_planes.len() as u64;
        i = i + 1;
    }
    n
}

/// Puts the model, the overlay and the management address together.
pub fn compose(state: SystemState, overlay: BindingOverlay, management_listen_addr: SocketAddress) -> (r: RuntimeInput)
    ensures
        r == (RuntimeInput { state, overlay, management_listen_addr }),
{
    RuntimeInput { state, overlay, management_listen_addr }
}

/// The identifiers of the first `n` access points, each followed by those of
/// its data planes.
pub open spec fn access_point_ids(aps: Seq<AccessPoint>, n: nat) -> Seq<u64>
    decreases n,
{
    if n == 0 {
        Seq::empty()
    } else {
        let a = aps[n - 1];
        access_point_ids(aps, (n - 1) as nat) + seq![a.id] + Seq::new(
            a.data_planes@.len(),
            |j: int| a.data_planes@[j].id,
        )
    }
}

/// Every generated identifier of a model: access points with their data
/// planes, then host APIs, then routers.
pub open spec fn entity_ids(s: SystemState) -> Seq<u64> {
    access_point_ids(s.access_points@, s.access_points@.len()) + Seq::new(
        s.host_apis@.len(),
        |i: int| s.host_apis@[i].id,
    ) + Seq::new(s.routers@.len(), |i: int| s.routers@[i].id)
}

proof fn lemma_access_point_ids(n: RuntimeInput, c: NetworkConfig, k: nat)
    requires
        network_matches(n, c),
        entity_count(c) <= u64::MAX,
        k <= c.snaps@.len(),
    ensures
        access_point_ids(n.state.access_points@, k) =~= Seq::new(
            snap_ids_used(c.snaps@, k) as nat,
            |i: int| i as u64,
        ),
    decreases k,
{
    lemma_snap_ids_monotone(c.snaps@, k, c.snaps@.len());
    if k > 0 {
        let p = (k - 1) as nat;
        lemma_access_point_ids(n, c, p);
        lemma_snap_ids_monotone(c.snaps@, p, c.snaps@.len());
        let a = n.state.access_points@[k - 1];
        assert(access_point_matches(a, c.snaps@[k - 1], snap_ids_used(c.snaps@, p)));
    }
}

/// Identifiers are handed out once each: the identifiers of a loaded model,
/// in declaration order, are exactly `0, 1, 2, ...`, so no two entities
/// (access points, data planes, host APIs, routers) share one.
pub proof fn lemma_identifiers_distinct(n: RuntimeInput, c: NetworkConfig)
    requires
        network_matches(n, c),
        entity_count(c) <= u64::MAX,
    ensures
        entity_ids(n.state) == Seq::new(entity_count(c) as nat, |i: int| i as u64),
        entity_ids(n.state).no_duplicates(),
{
    lemma_access_point_ids(n, c, c.snaps@.len());
    lemma_snap_ids_monotone(c.snaps@, 0, c.snaps@.len());
    let ids = entity_ids(n.state);
    assert(ids =~= Seq::new(entity_count(c) as nat, |i: int| i as u64));
}

} // verus!
