use pocketscion_configurator::assembly::{load_network, RuntimeInput};
use pocketscion_configurator::config::{
    AsConfig, DataPlaneConfig, EndhostApiConfig, NetworkConfig, RouterAddressing, RouterConfig, SnapConfig,
    SocketAddress, TopologyConfig,
};
use pocketscion_configurator::entities::Binding;
use pocketscion_configurator::error::ConfigError;
use pocketscion_configurator::ident::IsdAs;

fn ia(isd: u64, asn: u64) -> IsdAs {
    IsdAs { raw: (isd << 48) | asn }
}

fn addr(port: u16) -> SocketAddress {
    SocketAddress::V4 { octets: 0x7f00_0001, port }
}

fn base_config() -> NetworkConfig {
    NetworkConfig {
        topology: TopologyConfig {
            ases: vec![
                AsConfig { isd_as: "1-11".to_string(), is_core: true },
                AsConfig { isd_as: "1-12".to_string(), is_core: false },
            ],
            links: vec!["1-11:1-12".to_string()],
        },
        snaps: vec![],
        endhost_apis: vec![],
        routers: vec![],
        management_listen_addr: addr(8000),
    }
}

fn data_plane(isd_as: &str, port: u16, ranges: &[&str]) -> DataPlaneConfig {
    DataPlaneConfig {
        isd_as: isd_as.to_string(),
        listening_addr: Some(addr(port)),
        address_range: ranges.iter().map(|r| r.to_string()).collect(),
    }
}

fn router(isd_as: &str, interfaces: Vec<u16>) -> RouterConfig {
    RouterConfig {
        isd_as: isd_as.to_string(),
        interfaces,
        listening_addr: None,
        addressing: RouterAddressing::Explicit {
            local_addresses: vec!["10.1.0.0/16".to_string()],
            next_hops: vec![("1".to_string(), addr(30001))],
        },
    }
}

fn load(c: &NetworkConfig) -> Result<RuntimeInput, ConfigError> {
    load_network(c)
}

#[test]
fn scenario_b_one_access_point() {
    let mut c = base_config();
    c.snaps.push(SnapConfig {
        listening_addr: Some(addr(9000)),
        data_planes: vec![data_plane("1-12", 9001, &["10.0.0.0/24"])],
    });
    let n = load(&c).unwrap();
    assert_eq!(n.state.access_points.len(), 1);
    let ap = &n.state.access_points[0];
    assert_eq!(ap.id, 0);
    assert_eq!(ap.data_planes.len(), 1);
    assert_eq!(ap.data_planes[0].id, 1);
    assert_eq!(ap.data_planes[0].isd_as, ia(1, 12));
    assert_eq!(ap.data_planes[0].address_range, vec!["10.0.0.0/24".parse::<ipnet::IpNet>().unwrap()]);
    assert_eq!(
        n.overlay.bindings,
        vec![Binding { id: 0, addr: addr(9000) }, Binding { id: 1, addr: addr(9001) }]
    );
    assert_eq!(n.management_listen_addr, addr(8000));
    assert_eq!(n.state.topology.as_count(), 2);
    assert_eq!(n.state.topology.link_count(), 1);
}

#[test]
fn scenario_c_router_with_interface_zero() {
    let mut c = base_config();
    c.routers.push(router("1-11", vec![1, 2, 0]));
    assert!(matches!(load(&c), Err(ConfigError::InvalidInterfaceId)));
}

#[test]
fn scenario_d_access_point_without_address() {
    let mut c = base_config();
    c.snaps.push(SnapConfig { listening_addr: None, data_planes: vec![data_plane("1-12", 9001, &["10.0.0.0/24"])] });
    assert!(matches!(load(&c), Err(ConfigError::MissingRequiredAddress)));
}

#[test]
fn identifiers_are_distinct_and_in_order() {
    let mut c = base_config();
    c.snaps.push(SnapConfig {
        listening_addr: Some(addr(9000)),
        data_planes: vec![data_plane("1-11", 9001, &["10.0.0.0/24"])],
    });
    c.snaps.push(SnapConfig {
        listening_addr: Some(addr(9100)),
        data_planes: vec![data_plane("1-12", 9101, &["10.1.0.0/24"]), data_plane("1-11", 9102, &["fd00::/64"])],
    });
    c.endhost_apis.push(EndhostApiConfig { isds: vec!["1-0".to_string()], listening_addr: Some(addr(9200)) });
    let mut r = router("1-11", vec![1, 2]);
    r.listening_addr = Some(addr(9300));
    c.routers.push(r);
    c.routers.push(router("1-12", vec![3]));
    let n = load(&c).unwrap();
    let mut ids = Vec::new();
    for ap in &n.state.access_points {
        ids.push(ap.id);
        for d in &ap.data_planes {
            ids.push(d.id);
        }
    }
    ids.extend(n.state.host_apis.iter().map(|h| h.id));
    ids.extend(n.state.routers.iter().map(|r| r.id));
    assert_eq!(ids, vec![0, 1, 2, 3, 4, 5, 6, 7]);
    let bound: Vec<u64> = n.overlay.bindings.iter().map(|b| b.id).collect();
    assert_eq!(bound, vec![0, 1, 2, 3, 4, 5, 6]);
    assert_eq!(n.state.host_apis[0].isds, vec![ia(1, 0)]);
    assert_eq!(n.state.routers[1].interfaces, vec![3]);
}

#[test]
fn router_addressing_is_copied() {
    let mut c = base_config();
    c.routers.push(router("1-11", vec![1]));
    let n = load(&c).unwrap();
    match &n.state.routers[0].addressing {
        RouterAddressing::Explicit { local_addresses, next_hops } => {
            assert_eq!(local_addresses, &vec!["10.1.0.0/16".to_string()]);
            assert_eq!(next_hops, &vec![("1".to_string(), addr(30001))]);
        }
        _ => panic!("addressing layout changed"),
    }
}

#[test]
fn load_errors() {
    let mut bad_range = base_config();
    bad_range.snaps.push(SnapConfig {
        listening_addr: Some(addr(9000)),
        data_planes: vec![data_plane("1-12", 9001, &["10.0.0.0/33"])],
    });
    assert!(matches!(load(&bad_range), Err(ConfigError::MalformedDocument)));

    let mut bad_plane_as = base_config();
    bad_plane_as.snaps.push(SnapConfig {
        listening_addr: Some(addr(9000)),
        data_planes: vec![data_plane("1:12", 9001, &["10.0.0.0/24"])],
    });
    assert!(matches!(load(&bad_plane_as), Err(ConfigError::InvalidIdentifier)));

    let mut plane_without_addr = base_config();
    let mut d = data_plane("1-12", 9001, &["10.0.0.0/24"]);
    d.listening_addr = None;
    plane_without_addr.snaps.push(SnapConfig { listening_addr: Some(addr(9000)), data_planes: vec![d] });
    assert!(matches!(load(&plane_without_addr), Err(ConfigError::MissingRequiredAddress)));

    let mut bad_api = base_config();
    bad_api.endhost_apis.push(EndhostApiConfig { isds: vec!["1".to_string()], listening_addr: Some(addr(9200)) });
    assert!(matches!(load(&bad_api), Err(ConfigError::InvalidIdentifier)));

    let mut api_without_addr = base_config();
    api_without_addr.endhost_apis.push(EndhostApiConfig { isds: vec!["1-0".to_string()], listening_addr: None });
    assert!(matches!(load(&api_without_addr), Err(ConfigError::MissingRequiredAddress)));

    let mut empty_router = base_config();
    empty_router.routers.push(router("1-11", vec![]));
    assert!(matches!(load(&empty_router), Err(ConfigError::InvalidInterfaceId)));

    let mut bad_router_as = base_config();
    bad_router_as.routers.push(router("eleven", vec![1]));
    assert!(matches!(load(&bad_router_as), Err(ConfigError::InvalidIdentifier)));

    let mut dup = base_config();
    dup.topology.ases.push(AsConfig { isd_as: "1-11".to_string(), is_core: false });
    assert!(matches!(load(&dup), Err(ConfigError::DuplicateAs)));
}

#[test]
fn topology_error_comes_first() {
    let mut c = base_config();
    c.topology.links.push("1-11:1-99".to_string());
    c.snaps.push(SnapConfig { listening_addr: None, data_planes: vec![] });
    assert!(matches!(load(&c), Err(ConfigError::UnknownAsInLink)));
}
