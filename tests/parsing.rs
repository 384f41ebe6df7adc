use pocketscion_configurator::error::ConfigError;
use pocketscion_configurator::ident::{check_interface_id, parse_interface_id, parse_isd_as, parse_link_spec, IsdAs};

fn ia(isd: u64, asn: u64) -> IsdAs {
    IsdAs { raw: (isd << 48) | asn }
}

#[test]
fn isd_as_decimal_form() {
    assert_eq!(parse_isd_as("1-11"), Ok(ia(1, 11)));
    assert_eq!(parse_isd_as("1-12"), Ok(ia(1, 12)));
}

#[test]
fn isd_as_hex_form() {
    assert_eq!(parse_isd_as("1-ff00:0:110"), Ok(IsdAs { raw: 0x1_ff00_0000_0110 }));
}

#[test]
fn isd_as_malformed() {
    assert_eq!(parse_isd_as("1-11-2"), Err(ConfigError::InvalidIdentifier));
    assert_eq!(parse_isd_as("111"), Err(ConfigError::InvalidIdentifier));
    assert_eq!(parse_isd_as("x-11"), Err(ConfigError::InvalidIdentifier));
    assert_eq!(parse_isd_as("70000-1"), Err(ConfigError::InvalidIdentifier));
    assert_eq!(parse_isd_as(""), Err(ConfigError::InvalidIdentifier));
}

#[test]
fn interface_zero_is_refused() {
    assert_eq!(parse_interface_id("0"), Err(ConfigError::InvalidInterfaceId));
    assert_eq!(parse_interface_id("000"), Err(ConfigError::InvalidInterfaceId));
    assert_eq!(check_interface_id(0), Err(ConfigError::InvalidInterfaceId));
}

#[test]
fn interface_positive_round_trips() {
    for n in [1u16, 2, 9, 10, 42, 1000, 65535] {
        assert_eq!(parse_interface_id(&n.to_string()), Ok(n));
        assert_eq!(check_interface_id(n), Ok(n));
    }
}

#[test]
fn interface_out_of_range_or_not_numeric() {
    assert_eq!(parse_interface_id("65536"), Err(ConfigError::InvalidInterfaceId));
    assert_eq!(parse_interface_id("99999999999"), Err(ConfigError::InvalidInterfaceId));
    assert_eq!(parse_interface_id(""), Err(ConfigError::InvalidInterfaceId));
    assert_eq!(parse_interface_id("12a"), Err(ConfigError::InvalidInterfaceId));
    assert_eq!(parse_interface_id("-1"), Err(ConfigError::InvalidInterfaceId));
}

#[test]
fn link_spec_decimal() {
    assert_eq!(parse_link_spec("1-11:1-12"), Ok((ia(1, 11), ia(1, 12))));
}

#[test]
fn link_spec_hex() {
    assert_eq!(
        parse_link_spec("1-ff00:0:110:2-ff00:0:111"),
        Ok((IsdAs { raw: 0x1_ff00_0000_0110 }, IsdAs { raw: 0x2_ff00_0000_0111 }))
    );
}

#[test]
fn link_spec_malformed() {
    assert_eq!(parse_link_spec("1-11"), Err(ConfigError::InvalidLinkSpec));
    assert_eq!(parse_link_spec("1-11:"), Err(ConfigError::InvalidLinkSpec));
    assert_eq!(parse_link_spec("1-11:x-12"), Err(ConfigError::InvalidLinkSpec));
    assert_eq!(parse_link_spec(""), Err(ConfigError::InvalidLinkSpec));
}
