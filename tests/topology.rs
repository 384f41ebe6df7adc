use pocketscion_configurator::config::{AsConfig, TopologyConfig};
use pocketscion_configurator::error::ConfigError;
use pocketscion_configurator::ident::IsdAs;
use pocketscion_configurator::topology::{build_topology_from_config, AsNode, Link, Topology};

fn ia(isd: u64, asn: u64) -> IsdAs {
    IsdAs { raw: (isd << 48) | asn }
}

fn scenario_a() -> TopologyConfig {
    TopologyConfig {
        ases: vec![
            AsConfig { isd_as: "1-11".to_string(), is_core: true },
            AsConfig { isd_as: "1-12".to_string(), is_core: false },
        ],
        links: vec!["1-11:1-12".to_string()],
    }
}

#[test]
fn add_as_twice_is_duplicate() {
    let mut t = Topology::new();
    assert_eq!(t.add_as(ia(1, 11), true), Ok(()));
    assert_eq!(t.add_as(ia(1, 12), false), Ok(()));
    assert_eq!(t.add_as(ia(1, 11), false), Err(ConfigError::DuplicateAs));
    assert_eq!(t.as_count(), 2);
    assert_eq!(t.ases()[0], AsNode { id: ia(1, 11), is_core: true });
}

#[test]
fn add_link_between_known_ases() {
    let mut t = Topology::new();
    t.add_as(ia(1, 11), true).unwrap();
    t.add_as(ia(1, 12), false).unwrap();
    assert_eq!(t.add_link("1-11:1-12"), Ok(()));
    assert_eq!(t.link_count(), 1);
    assert_eq!(t.add_link("1-12:1-11"), Ok(()));
    assert_eq!(t.link_count(), 2);
    assert_eq!(t.links()[1], Link { from: ia(1, 12), to: ia(1, 11) });
}

#[test]
fn add_link_to_unknown_as() {
    let mut t = Topology::new();
    t.add_as(ia(1, 11), true).unwrap();
    assert_eq!(t.add_link("1-11:1-13"), Err(ConfigError::UnknownAsInLink));
    assert_eq!(t.add_link_between(ia(1, 13), ia(1, 11)), Err(ConfigError::UnknownAsInLink));
    assert_eq!(t.link_count(), 0);
}

#[test]
fn add_link_malformed() {
    let mut t = Topology::new();
    t.add_as(ia(1, 11), true).unwrap();
    assert_eq!(t.add_link("1-11"), Err(ConfigError::InvalidLinkSpec));
}

#[test]
fn scenario_a_two_ases_one_link() {
    let first = build_topology_from_config(&scenario_a()).unwrap();
    assert_eq!(first.as_count(), 2);
    assert_eq!(first.link_count(), 1);
    assert!(first.has_as(ia(1, 11)));
    assert!(first.has_as(ia(1, 12)));
    let second = build_topology_from_config(&scenario_a()).unwrap();
    assert_eq!(first.ases(), second.ases());
    assert_eq!(first.links(), second.links());
}

#[test]
fn topology_config_errors() {
    let mut dup = scenario_a();
    dup.ases.push(AsConfig { isd_as: "1-12".to_string(), is_core: true });
    assert!(matches!(build_topology_from_config(&dup), Err(ConfigError::DuplicateAs)));

    let mut bad_id = scenario_a();
    bad_id.ases[1].isd_as = "1_12".to_string();
    assert!(matches!(build_topology_from_config(&bad_id), Err(ConfigError::InvalidIdentifier)));

    let mut unknown = scenario_a();
    unknown.links.push("1-11:1-99".to_string());
    assert!(matches!(build_topology_from_config(&unknown), Err(ConfigError::UnknownAsInLink)));

    let mut bad_link = scenario_a();
    bad_link.links.push("1-11/1-12".to_string());
    assert!(matches!(build_topology_from_config(&bad_link), Err(ConfigError::InvalidLinkSpec)));
}
