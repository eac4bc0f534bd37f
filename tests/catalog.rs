use ha_bridge::capabilities::{
    build, entity_domain, is_supported, BuildError, CapabilityEntry, DomainServices, ServiceInfo,
    POST_SERVICE_TOPIC,
};

fn domain(name: &str, services: &[(&str, &str)]) -> DomainServices {
    DomainServices {
        domain: name.to_string(),
        services: services
            .iter()
            .map(|(n, d)| ServiceInfo { name: n.to_string(), description: d.to_string() })
            .collect(),
    }
}

fn ids(list: &[&str]) -> Vec<String> {
    list.iter().map(|s| s.to_string()).collect()
}

fn pairs(entries: &[CapabilityEntry]) -> Vec<(String, String)> {
    entries.iter().map(|e| (e.description.clone(), e.command.clone())).collect()
}

fn catalog() -> Vec<DomainServices> {
    vec![
        domain("light", &[("turn_on", "Turn on"), ("turn_off", "Turn off")]),
        domain("switch", &[("toggle", "Toggle")]),
        domain("remote", &[("send_command", "Send command")]),
    ]
}

#[test]
fn domain_is_prefix_before_first_dot() {
    assert_eq!(entity_domain("light.kitchen"), "light");
    assert_eq!(entity_domain("media_player.tv.main"), "media_player");
    assert_eq!(entity_domain("nodot"), "nodot");
    assert_eq!(entity_domain(""), "");
}

#[test]
fn allow_list() {
    assert!(is_supported("alarm_control_panel"));
    assert!(is_supported("light"));
    assert!(is_supported("media_player"));
    assert!(is_supported("remote"));
    assert!(!is_supported("switch"));
    assert!(!is_supported("lights"));
    assert!(!is_supported(""));
}

#[test]
fn entries_for_supported_entities() {
    let r = build(&catalog(), &ids(&["light.kitchen", "remote.tv"])).ok().unwrap();
    assert_eq!(
        pairs(&r),
        vec![
            (
                "Turn on light.kitchen".to_string(),
                "homeassistant.post_service light turn_on light.kitchen".to_string()
            ),
            (
                "Turn off light.kitchen".to_string(),
                "homeassistant.post_service light turn_off light.kitchen".to_string()
            ),
            (
                "Send command remote.tv".to_string(),
                "homeassistant.post_service remote send_command remote.tv".to_string()
            ),
        ]
    );
    assert!(r.iter().all(|e| e.command.starts_with(POST_SERVICE_TOPIC)));
}

#[test]
fn unsupported_entities_are_excluded() {
    let r = build(&catalog(), &ids(&["switch.fan", "sensor.temp", "light.hall", "nodot"]))
        .ok()
        .unwrap();
    assert_eq!(r.len(), 2);
    for e in &r {
        assert!(!e.command.contains("switch.fan"));
        assert!(!e.description.contains("sensor.temp"));
        assert!(e.command.ends_with(" light.hall"));
    }
}

#[test]
fn empty_entity_list_gives_empty_catalog() {
    let r = build(&catalog(), &Vec::new()).ok().unwrap();
    assert!(r.is_empty());
    let r = build(&Vec::new(), &Vec::new()).ok().unwrap();
    assert!(r.is_empty());
}

#[test]
fn supported_domain_missing_from_catalog_fails() {
    let r = build(&catalog(), &ids(&["light.a", "media_player.tv", "alarm_control_panel.home"]));
    match r {
        Err(BuildError::MissingServices { domain, entity_id }) => {
            assert_eq!(domain, "media_player");
            assert_eq!(entity_id, "media_player.tv");
        }
        Ok(_) => panic!("expected a catalog inconsistency"),
    }
}

#[test]
fn supported_domain_with_no_service_fails() {
    let mut cat = catalog();
    cat.push(domain("media_player", &[]));
    match build(&cat, &ids(&["media_player.tv"])) {
        Err(BuildError::MissingServices { domain, entity_id }) => {
            assert_eq!(domain, "media_player");
            assert_eq!(entity_id, "media_player.tv");
        }
        Ok(_) => panic!("expected a catalog inconsistency"),
    }
}

#[test]
fn later_listing_of_a_domain_counts() {
    let mut cat = catalog();
    cat.push(domain("light", &[("toggle", "Toggle")]));
    let r = build(&cat, &ids(&["light.x"])).ok().unwrap();
    assert_eq!(
        pairs(&r),
        vec![(
            "Toggle light.x".to_string(),
            "homeassistant.post_service light toggle light.x".to_string()
        )]
    );
}

#[test]
fn shared_description_keeps_both_entries_in_order() {
    let cat = vec![domain("light", &[("on", "Same"), ("off", "Same")])];
    let r = build(&cat, &ids(&["light.x"])).ok().unwrap();
    assert_eq!(r.len(), 2);
    assert_eq!(r[0].description, r[1].description);
    let map: std::collections::HashMap<String, String> = pairs(&r).into_iter().collect();
    assert_eq!(map["Same light.x"], "homeassistant.post_service light off light.x");
}
