use punchhole::config::{
    ConfigError, EndpointError, Mapping, cli_arguments, config_from_parts, mapping_from_script,
    select_ipv4_endpoint,
};
use punchhole::endpoint::Endpoint;

fn scripts(values: &[&str]) -> Vec<String> {
    values.iter().map(|value| (*value).to_string()).collect()
}

#[test]
fn parses_json_with_multiple_scripts() {
    let http = Endpoint::new(198, 51, 100, 10, 80);
    let stun = Endpoint::new(198, 51, 100, 20, 3478);
    let config = config_from_parts(http, stun, &scripts(&["/opt/app1.sh", "/opt/app2.sh"]))
        .expect("configuration should be accepted");

    assert_eq!(config.http, http);
    assert_eq!(config.stun, stun);
    assert_eq!(
        config.mappings,
        vec![
            Mapping { script: "/opt/app1.sh".to_string() },
            Mapping { script: "/opt/app2.sh".to_string() }
        ]
    );
}

#[test]
fn rejects_relative_script_path() {
    let http = Endpoint::new(198, 51, 100, 10, 80);
    let stun = Endpoint::new(198, 51, 100, 20, 3478);
    let error = config_from_parts(http, stun, &scripts(&["/opt/ok.sh", "app.sh", "other.sh"]))
        .expect_err("relative script must be rejected");
    assert_eq!(
        error,
        ConfigError::RelativeScript { mapping_number: 2, script: "app.sh".to_string() }
    );
}

#[test]
fn rejects_empty_mappings() {
    let http = Endpoint::new(198, 51, 100, 10, 80);
    let stun = Endpoint::new(198, 51, 100, 20, 3478);
    let error = config_from_parts(http, stun, &Vec::new()).expect_err("at least one mapping must be required");
    assert_eq!(error, ConfigError::NoMappings);
}

#[test]
fn accepts_only_absolute_script_paths() {
    assert_eq!(
        mapping_from_script(&"/usr/local/lib/punchhole/map.sh".to_string()),
        Some(Mapping { script: "/usr/local/lib/punchhole/map.sh".to_string() })
    );
    assert_eq!(mapping_from_script(&"scripts/map.sh".to_string()), None);
    assert_eq!(mapping_from_script(&"./map.sh".to_string()), None);
    assert_eq!(mapping_from_script(&String::new()), None);
    assert_eq!(mapping_from_script(&"/".to_string()), Some(Mapping { script: "/".to_string() }));
}

#[test]
fn rejects_invalid_or_non_ipv4_endpoint() {
    assert_eq!(select_ipv4_endpoint(&vec![]), Err(EndpointError::NotIpv4));
    assert_eq!(select_ipv4_endpoint(&vec![None]), Err(EndpointError::NotIpv4));
    assert_eq!(
        select_ipv4_endpoint(&vec![Some(Endpoint::new(127, 0, 0, 1, 0))]),
        Err(EndpointError::ZeroPort)
    );
}

#[test]
fn selects_first_ipv4_address() {
    let first = Endpoint::new(127, 0, 0, 1, 80);
    let second = Endpoint::new(10, 0, 0, 1, 80);
    assert_eq!(select_ipv4_endpoint(&vec![None, Some(first), Some(second)]), Ok(first));
    assert_eq!(
        select_ipv4_endpoint(&vec![None, Some(Endpoint::new(127, 0, 0, 1, 0)), Some(second)]),
        Err(EndpointError::ZeroPort)
    );
}

#[test]
fn prepends_program_name_to_cli_arguments() {
    assert_eq!(
        cli_arguments(&scripts(&["--config", "config.json"])),
        vec!["PunchHole", "--config", "config.json"]
    );
    assert_eq!(cli_arguments(&Vec::new()), vec!["PunchHole"]);
}
