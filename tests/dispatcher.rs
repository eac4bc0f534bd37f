use std::collections::HashMap;

use ha_bridge::capabilities::POST_SERVICE_TOPIC;
use ha_bridge::dispatch::{
    advance, parse_request, receive, split_fields, DispatchError, Pending, RemoteCall, Request,
    Step, GET_STATE_TOPIC, SET_STATE_TOPIC,
};
use ha_bridge::state::StateValue;

/// A hub that keeps entity states as text and records every call it gets.
struct FakeHub {
    states: HashMap<String, String>,
    calls: Vec<String>,
}

impl FakeHub {
    fn new(entities: &[(&str, &str)]) -> FakeHub {
        FakeHub {
            states: entities.iter().map(|(k, v)| (k.to_string(), v.to_string())).collect(),
            calls: Vec::new(),
        }
    }

    fn perform(&mut self, call: RemoteCall) -> Result<Option<StateValue>, String> {
        match call {
            RemoteCall::FetchState { entity_id } => {
                self.calls.push(format!("fetch {entity_id}"));
                match self.states.get(&entity_id) {
                    Some(v) => Ok(Some(StateValue::Text(v.clone()))),
                    None => Err(format!("404 {entity_id}")),
                }
            }
            RemoteCall::WriteState { entity_id, value } => {
                self.calls.push(format!("write {entity_id} {value}"));
                self.states.insert(entity_id, value.clone());
                Ok(Some(StateValue::Text(value)))
            }
            RemoteCall::CallService { domain, service, entity_id } => {
                self.calls.push(format!("call {domain} {service} {entity_id}"));
                Ok(None)
            }
        }
    }

    fn handle(&mut self, topic: &str, text: &str) -> Result<String, DispatchError> {
        let mut step = receive(topic, text);
        loop {
            match step {
                Step::Call { call, pending } => {
                    let outcome = self.perform(call);
                    step = advance(pending, outcome);
                }
                Step::Reply { text } => return Ok(text),
                Step::Fail { error } => return Err(error),
            }
        }
    }
}

fn strings(list: &[&str]) -> Vec<String> {
    list.iter().map(|s| s.to_string()).collect()
}

#[test]
fn split_at_single_spaces() {
    assert_eq!(split_fields("light turn_on light.x"), strings(&["light", "turn_on", "light.x"]));
    assert_eq!(split_fields(""), strings(&[""]));
    assert_eq!(split_fields("a  b"), strings(&["a", "", "b"]));
    assert_eq!(split_fields(" a "), strings(&["", "a", ""]));
}

#[test]
fn parse_each_topic() {
    match parse_request(GET_STATE_TOPIC, "lamp.kitchen") {
        Ok(Request::GetState { entity_id }) => assert_eq!(entity_id, "lamp.kitchen"),
        _ => panic!("expected a get-state request"),
    }
    match parse_request(SET_STATE_TOPIC, "lamp.kitchen 75") {
        Ok(Request::SetState { entity_id, value }) => {
            assert_eq!(entity_id, "lamp.kitchen");
            assert_eq!(value, "75");
        }
        _ => panic!("expected a set-state request"),
    }
    match parse_request(POST_SERVICE_TOPIC, "light turn_on light.x") {
        Ok(Request::PostService { domain, service, entity_id }) => {
            assert_eq!(domain, "light");
            assert_eq!(service, "turn_on");
            assert_eq!(entity_id, "light.x");
        }
        _ => panic!("expected a post-service request"),
    }
}

#[test]
fn unknown_topic_fails_without_remote_call() {
    let mut hub = FakeHub::new(&[]);
    match hub.handle("homeassistant.reboot", "now") {
        Err(DispatchError::UnknownTopic { topic }) => assert_eq!(topic, "homeassistant.reboot"),
        _ => panic!("expected an unknown topic"),
    }
    assert!(hub.calls.is_empty());
}

#[test]
fn malformed_post_service_makes_no_remote_call() {
    let mut hub = FakeHub::new(&[("light.turn_on", "off")]);
    match hub.handle(POST_SERVICE_TOPIC, "light.turn_on") {
        Err(DispatchError::Malformed { text }) => assert_eq!(text, "light.turn_on"),
        _ => panic!("expected a malformed request"),
    }
    assert_eq!(hub.calls.len(), 0);
}

#[test]
fn malformed_set_state_makes_no_remote_call() {
    let mut hub = FakeHub::new(&[("lamp.kitchen", "10")]);
    assert!(matches!(
        hub.handle(SET_STATE_TOPIC, "lamp.kitchen 75 extra"),
        Err(DispatchError::Malformed { .. })
    ));
    assert!(matches!(hub.handle(SET_STATE_TOPIC, "lamp.kitchen"), Err(DispatchError::Malformed { .. })));
    assert!(hub.calls.is_empty());
}

#[test]
fn set_then_get_round_trip() {
    let mut hub = FakeHub::new(&[("lamp.kitchen", "10")]);
    assert_eq!(hub.handle(SET_STATE_TOPIC, "lamp.kitchen 75").ok().unwrap(), "75");
    assert_eq!(hub.handle(GET_STATE_TOPIC, "lamp.kitchen").ok().unwrap(), "75");
    assert_eq!(
        hub.calls,
        strings(&["fetch lamp.kitchen", "write lamp.kitchen 75", "fetch lamp.kitchen"])
    );
}

#[test]
fn get_state_of_missing_entity_is_remote_error() {
    let mut hub = FakeHub::new(&[("lamp.kitchen", "on")]);
    match hub.handle(GET_STATE_TOPIC, "lamp.missing") {
        Err(DispatchError::Remote { entity_id, detail }) => {
            assert_eq!(entity_id, "lamp.missing");
            assert_eq!(detail, "404 lamp.missing");
        }
        _ => panic!("expected a remote error"),
    }
}

#[test]
fn set_state_does_not_write_after_failed_read() {
    let mut hub = FakeHub::new(&[]);
    assert!(matches!(
        hub.handle(SET_STATE_TOPIC, "lamp.missing 1"),
        Err(DispatchError::Remote { .. })
    ));
    assert_eq!(hub.calls, strings(&["fetch lamp.missing"]));
}

#[test]
fn post_service_echoes_service_name() {
    let mut hub = FakeHub::new(&[]);
    assert_eq!(hub.handle(POST_SERVICE_TOPIC, "light turn_on light.x").ok().unwrap(), "turn_on");
    assert_eq!(hub.calls, strings(&["call light turn_on light.x"]));
}

#[test]
fn state_reply_uses_canonical_text() {
    let pending = Pending::GetState { entity_id: "sensor.count".to_string() };
    match advance(pending, Ok(Some(StateValue::Integer(-3)))) {
        Step::Reply { text } => assert_eq!(text, "-3"),
        _ => panic!("expected a reply"),
    }
    let pending = Pending::SetState { entity_id: "input.flag".to_string() };
    match advance(pending, Ok(Some(StateValue::Boolean(true)))) {
        Step::Reply { text } => assert_eq!(text, "true"),
        _ => panic!("expected a reply"),
    }
}

#[test]
fn no_state_is_reported() {
    let pending = Pending::GetState { entity_id: "lamp.kitchen".to_string() };
    match advance(pending, Ok(None)) {
        Step::Fail { error: DispatchError::NoState { entity_id } } => {
            assert_eq!(entity_id, "lamp.kitchen")
        }
        _ => panic!("expected a missing state"),
    }
}

#[test]
fn failed_service_call_names_entity() {
    let pending = Pending::PostService { service: "turn_on".to_string(), entity_id: "light.x".to_string() };
    match advance(pending, Err("timeout".to_string())) {
        Step::Fail { error: DispatchError::Remote { entity_id, detail } } => {
            assert_eq!(entity_id, "light.x");
            assert_eq!(detail, "timeout");
        }
        _ => panic!("expected a remote error"),
    }
}
