use vstd::prelude::*;

use crate::config::{DataPlaneConfig, EndhostApiConfig, RouterAddressing, RouterConfig, SnapConfig, SocketAddress};
use crate::error::ConfigError;
use crate::ident::{isd_as_result, parse_isd_as, IsdAs};

verus! {

#[verifier::external_type_specification]
#[verifier::external_body]
pub struct ExIpNet(ipnet::IpNet);

/// Whether ipnet reads a network prefix from a text.
pub uninterp spec fn ip_net_parses(s: Seq<char>) -> bool;

/// Relies on ipnet's `IpNet::from_str`, which reads an IPv4 or IPv6 prefix
/// (`10.0.0.0/24`) without panicking; the outcome depends on the text alone.
#[verifier::external_body]
fn ip_net_from_str(s: &str) -> (r: Option<ipnet::IpNet>)
    ensures
        r is Some <==> ip_net_parses(s@),
{
    s.parse::<ipnet::IpNet>().ok()
}

/// The first error among the first `n` items of `s`, checked in order.
pub open spec fn first_error<T>(s: Seq<T>, f: spec_fn(T) -> Option<ConfigError>, n: nat) -> Option<ConfigError>
    decreases n,
{
    if n == 0 {
        None
    } else {
        match first_error(s, f, (n - 1) as nat) {
            Some(e) => Some(e),
            None => f(s[n - 1]),
        }
    }
}

pub proof fn lemma_first_error_stays<T>(s: Seq<T>, f: spec_fn(T) -> Option<ConfigError>, n: nat, m: nat)
    requires
        n <= m,
        first_error(s, f, n) is Some,
    ensures
        first_error(s, f, m) == first_error(s, f, n),
    decreases m - n,
{
    if n < m {
        lemma_first_error_stays(s, f, n, (m - 1) as nat);
    }
}

/// A data plane of an access point, with its generated identifier.
#[derive(Debug, Clone)]
pub struct DataPlane {
    pub id: u64,
    pub isd_as: IsdAs,
    pub address_range: Vec<ipnet::IpNet>,
}

/// An access point: a control plane with its data planes.
#[derive(Debug, Clone)]
pub struct AccessPoint {
    pub id: u64,
    pub data_planes: Vec<DataPlane>,
}

/// A host-facing API.
#[derive(Debug, Clone)]
pub struct HostApi {
    pub id: u64,
    pub isds: Vec<IsdAs>,
}

/// A router of one AS.
#[derive(Debug, Clone)]
pub struct Router {
    pub id: u64,
    pub isd_as: IsdAs,
    pub interfaces: Vec<u16>,
    pub addressing: RouterAddressing,
}

/// The address at which the runtime listens for one entity.
#[derive(Debug, Clone, Copy, PartialEq, Eq, Structural)]
pub struct Binding {
    pub id: u64,
    pub addr: SocketAddress,
}

pub open spec fn ranges_parse(rs: Seq<String>) -> bool {
    forall|i: int| 0 <= i < rs.len() ==> ip_net_parses((#[trigger] rs[i])@)
}

/// Why a data plane is refused, checked field by field.
pub open spec fn data_plane_error(c: DataPlaneConfig) -> Option<ConfigError> {
    if isd_as_result(c.isd_as@) is Err {
        Some(ConfigError::InvalidIdentifier)
    } else if c.listening_addr is None {
        Some(ConfigError::MissingRequiredAddress)
    } else if !ranges_parse(c.address_range@) {
        Some(ConfigError::MalformedDocument)
    } else {
        None
    }
}

/// Why an access point is refused: a missing control address, else the
/// first refused data plane.
pub open spec fn snap_error(c: SnapConfig) -> Option<ConfigError> {
    if c.listening_addr is None {
        Some(ConfigError::MissingRequiredAddress)
    } else {
        first_error(c.data_planes@, |d: DataPlaneConfig| data_plane_error(d), c.data_planes@.len())
    }
}

pub open spec fn isd_text_error(s: String) -> Option<ConfigError> {
    if isd_as_result(s@) is Err {
        Some(ConfigError::InvalidIdentifier)
    } else {
        None
    }
}

/// Why a host API is refused: the first bad identifier, else a missing address.
pub open spec fn endhost_api_error(c: EndhostApiConfig) -> Option<ConfigError> {
    match first_error(c.isds@, |s: String| isd_text_error(s), c.isds@.len()) {
        Some(e) => Some(e),
        None => if c.listening_addr is None {
            Some(ConfigError::MissingRequiredAddress)
        } else {
            None
        },
    }
}

/// Why a router is refused: a bad identifier, or an interface list that is
/// empty or holds the reserved interface zero.
pub open spec fn router_error(c: RouterConfig) -> Option<ConfigError> {
    if isd_as_result(c.isd_as@) is Err {
        Some(ConfigError::InvalidIdentifier)
    } else if c.interfaces@.len() == 0 || c.interfaces@.contains(0u16) {
        Some(ConfigError::InvalidInterfaceId)
    } else {
        None
    }
}

pub open spec fn data_plane_matches(d: DataPlane, c: DataPlaneConfig, id: int) -> bool {
    &&& d.id == id
    &&& isd_as_result(c.isd_as@) == Ok::<IsdAs, ConfigError>(d.isd_as)
    &&& d.address_range@.len() == c.address_range@.len()
}

/// An access point registered from `c` under identifier `id`; its data
/// planes take the identifiers that follow.
pub open spec fn access_point_matches(a: AccessPoint, c: SnapConfig, id: int) -> bool {
    &&& a.id == id
    &&& a.data_planes@.len() == c.data_planes@.len()
    &&& forall|j: int|
        0 <= j < a.data_planes@.len() ==> data_plane_matches(
            #[trigger] a.data_planes@[j],
            c.data_planes@[j],
            id + 1 + j,
        )
}

/// The bindings of an access point registered under `id`: its control
/// address, then one address per data plane.
pub open spec fn snap_bindings(c: SnapConfig, id: int) -> Seq<Binding> {
    seq![Binding { id: id as u64, addr: c.listening_addr->Some_0 }] + Seq::new(
        c.data_planes@.len(),
        |j: int| Binding { id: (id + 1 + j) as u64, addr: c.data_planes@[j].listening_addr->Some_0 },
    )
}

pub open spec fn host_api_matches(h: HostApi, c: EndhostApiConfig, id: int) -> bool {
    &&& h.id == id
    &&& h.isds@.len() == c.isds@.len()
    &&& forall|j: int|
        0 <= j < h.isds@.len() ==> isd_as_result(c.isds@[j]@) == Ok::<IsdAs, ConfigError>(
            #[trigger] h.isds@[j],
        )
}

pub open spec fn strings_equal(a: Seq<String>, b: Seq<String>) -> bool {
    a.len() == b.len() && forall|i: int| 0 <= i < a.len() ==> (#[trigger] a[i])@ == b[i]@
}

pub open spec fn pairs_equal(a: Seq<(String, SocketAddress)>, b: Seq<(String, SocketAddress)>) -> bool {
    a.len() == b.len() && forall|i: int|
        0 <= i < a.len() ==> (#[trigger] a[i]).0@ == b[i].0@ && a[i].1 == b[i].1
}

/// Two addressing descriptions hold the same texts and addresses.
pub open spec fn addressing_equal(a: RouterAddressing, b: RouterAddressing) -> bool {
    match (a, b) {
        (
            RouterAddressing::Explicit { local_addresses: l1, next_hops: n1 },
            RouterAddressing::Explicit { local_addresses: l2, next_hops: n2 },
        ) => strings_equal(l1@, l2@) && pairs_equal(n1@, n2@),
        (
            RouterAddressing::SnapInterfaces {
                snap_data_plane_excludes: e1,
                snap_data_plane_interfaces: i1,
            },
            RouterAddressing::SnapInterfaces {
                snap_data_plane_excludes: e2,
                snap_data_plane_interfaces: i2,
            },
        ) => strings_equal(e1@, e2@) && pairs_equal(i1@, i2@),
        _ => false,
    }
}

pub open spec fn router_matches(r: Router, c: RouterConfig, id: int) -> bool {
    &&& r.id == id
    &&& isd_as_result(c.isd_as@) == Ok::<IsdAs, ConfigError>(r.isd_as)
    &&& r.interfaces@ == c.interfaces@
    &&& addressing_equal(r.addressing, c.addressing)
}

fn copy_strings(v: &Vec<String>) -> (r: Vec<String>)
    ensures
        strings_equal(r@, v@),
{
    let mut r: Vec<String> = Vec::new();
    for i in 0..v.len()
        invariant
            r@.len() == i,
            forall|k: int| 0 <= k < i ==> (#[trigger] r@[k])@ == v@[k]@,
    {
        r.push(v[i].clone());
    }
    r
}

fn copy_pairs(v: &Vec<(String, SocketAddress)>) -> (r: Vec<(String, SocketAddress)>)
    ensures
        pairs_equal(r@, v@),
{
    let mut r: Vec<(String, SocketAddress)> = Vec::new();
    for i in 0..v.len()
        invariant
            r@.len() == i,
            forall|k: int| 0 <= k < i ==> (#[trigger] r@[k]).0@ == v@[k].0@ && r@[k].1 == v@[k].1,
    {
        r.push((v[i].0.clone(), v[i].1));
    }
    r
}

fn copy_addressing(a: &RouterAddressing) -> (r: RouterAddressing)
    ensures
        addressing_equal(r, *a),
{
    match a {
        RouterAddressing::Explicit { local_addresses, next_hops } => RouterAddressing::Explicit {
            local_addresses: copy_strings(local_addresses),
            next_hops: copy_pairs(next_hops),
        },
        RouterAddressing::SnapInterfaces { snap_data_plane_excludes, snap_data_plane_interfaces } => {
            RouterAddressing::SnapInterfaces {
                snap_data_plane_excludes: copy_strings(snap_data_plane_excludes),
                snap_data_plane_interfaces: copy_pairs(snap_data_plane_interfaces),
            }
        },
    }
}

fn parse_ranges(rs: &Vec<String>) -> (r: Option<Vec<ipnet::IpNet>>)
    ensures
        r is Some <==> ranges_parse(rs@),
        r matches Some(v) ==> v@.len() == rs@.len(),
{
    let mut out: Vec<ipnet::IpNet> = Vec::new();
    for i in 0..rs.len()
        invariant
            out@.len() == i,
            forall|k: int| 0 <= k < i ==> ip_net_parses((#[trigger] rs@[k])@),
    {
        match ip_net_from_str(rs[i].as_str()) {
            Some(n) => out.push(n),
            None => return None,
        }
    }
    Some(out)
}

/// Builds a data plane under identifier `id`.
pub fn build_data_plane(c: &DataPlaneConfig, id: u64) -> (r: Result<DataPlane, ConfigError>)
    ensures
        data_plane_error(*c) matches Some(e) ==> r == Err::<DataPlane, ConfigError>(e),
        data_plane_error(*c) is None ==> (r matches Ok(d) && data_plane_matches(d, *c, id as int)),
{
    let isd_as = match parse_isd_as(c.isd_as.as_str()) {
        Ok(v) => v,
        Err(_) => return Err(ConfigError::InvalidIdentifier),
    };
    if c.listening_addr.is_none() {
        return Err(ConfigError::MissingRequiredAddress);
    }
    match parse_ranges(&c.address_range) {
        Some(address_range) => Ok(DataPlane { id, isd_as, address_range }),
        None => Err(ConfigError::MalformedDocument),
    }
}

/// Builds an access point under identifier `id`; its data planes take the
/// identifiers `id + 1`, `id + 2`, ...
pub fn build_access_point(c: &SnapConfig, id: u64) -> (r: Result<AccessPoint, ConfigError>)
    requires
        id + 1 + c.data_planes@.len() <= u64::MAX,
    ensures
        snap_error(*c) matches Some(e) ==> r == Err::<AccessPoint, ConfigError>(e),
        snap_error(*c) is None ==> (r matches Ok(a) && access_point_matches(a, *c, id as int)),
{
    if c.listening_addr.is_none() {
        return Err(ConfigError::MissingRequiredAddress);
    }
    let ghost f = |d: DataPlaneConfig| data_plane_error(d);
    let mut planes: Vec<DataPlane> = Vec::new();
    let mut j: usize = 0;
    while j < c.data_planes.len()
        invariant
            j <= c.data_planes@.len(),
            id + 1 + c.data_planes@.len() <= u64::MAX,
            c.listening_addr is Some,
            f == (|d: DataPlaneConfig| data_plane_error(d)),
            first_error(c.data_planes@, f, j as nat) is None,
            planes@.len() == j,
            forall|k: int|
                0 <= k < j ==> data_plane_matches(
                    #[trigger] planes@[k],
                    c.data_planes@[k],
                    id + 1 + k,
                ),
        decreases c.data_planes.len() - j,
    {
        match build_data_plane(&c.data_planes[j], id + 1 + j as u64) {
            Ok(d) => planes.push(d),
            Err(e) => {
                proof {
                    assert(f(c.data_planes@[j as int]) == Some(e));
                    lemma_first_error_stays(c.data_planes@, f, (j + 1) as nat, c.data_planes@.len());
                }
                return Err(e);
            },
        }
        j = j + 1;
    }
    Ok(AccessPoint { id, data_planes: planes })
}

/// Builds a host API under identifier `id`.
pub fn build_host_api(c: &EndhostApiConfig, id: u64) -> (r: Result<HostApi, ConfigError>)
    ensures
        endhost_api_error(*c) matches Some(e) ==> r == Err::<HostApi, ConfigError>(e),
        endhost_api_error(*c) is None ==> (r matches Ok(h) && host_api_matches(h, *c, id as int)),
{
    let ghost f = |s: String| isd_text_error(s);
    let mut isds: Vec<IsdAs> = Vec::new();
    let mut j: usize = 0;
    while j < c.isds.len()
        invariant
            j <= c.isds@.len(),
            f == (|s: String| isd_text_error(s)),
            first_error(c.isds@, f, j as nat) is None,
            isds@.len() == j,
            forall|k: int|
                0 <= k < j ==> isd_as_result(c.isds@[k]@) == Ok::<IsdAs, ConfigError>(
                    #[trigger] isds@[k],
                ),
        decreases c.isds.len() - j,
    {
        match parse_isd_as(c.isds[j].as_str()) {
            Ok(v) => isds.push(v),
            Err(e) => {
                proof {
                    lemma_first_error_stays(c.isds@, f, (j + 1) as nat, c.isds@.len());
                }
                return Err(e);
            },
        }
        j = j + 1;
    }
    if c.listening_addr.is_none() {
        return Err(ConfigError::MissingRequiredAddress);
    }
    Ok(HostApi { id, isds })
}

/// Builds a router under identifier `id`; its addressing data is copied as
/// it stands.
pub fn build_router(c: &RouterConfig, id: u64) -> (r: Result<Router, ConfigError>)
    ensures
        router_error(*c) matches Some(e) ==> r == Err::<Router, ConfigError>(e),
        router_error(*c) is None ==> (r matches Ok(x) && router_matches(x, *c, id as int)),
{
    let isd_as = match parse_isd_as(c.isd_as.as_str()) {
        Ok(v) => v,
        Err(_) => return Err(ConfigError::InvalidIdentifier),
    };
    if c.interfaces.len() == 0 {
        return Err(ConfigError::InvalidInterfaceId);
    }
    let mut interfaces: Vec<u16> = Vec::new();
    for j in 0..c.interfaces.len()
        invariant
            interfaces@ == c.interfaces@.subrange(0, j as int),
            isd_as_result(c.isd_as@) == Ok::<IsdAs, ConfigError>(isd_as),
            c.interfaces@.len() > 0,
            forall|k: int| 0 <= k < j ==> #[trigger] c.interfaces@[k] != 0u16,
    {
        let v = match crate::ident::check_interface_id(c.interfaces[j]) {
            Ok(v) => v,
            Err(e) => {
                assert(c.interfaces@[j as int] == 0u16);
                assert(c.interfaces@.contains(0u16));
                return Err(e);
            },
        };
        interfaces.push(v);
        assert(interfaces@ =~= c.interfaces@.subrange(0, j + 1));
    }
    assert(interfaces@ =~= c.interfaces@);
    Ok(Router { id, isd_as, interfaces, addressing: copy_addressing(&c.addressing) })
}

} // verus!
