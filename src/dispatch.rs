//! The command dispatcher: from an inbound (topic, text) message to the remote
//! calls it asks for and the reply it ends in.
//!
//! A message moves from received to validated to executed, and ends replied
//! or failed. The caller performs each remote call that a [`Step`] asks for
//! and hands its outcome back to [`advance`].
use vstd::prelude::*;
use vstd::string::*;
use crate::capabilities::POST_SERVICE_TOPIC;
use crate::state::{state_to_string, StateValue};
use crate::text::same_text;

verus! {

/// Topic that asks for the state of one entity; the body is the entity id.
pub const GET_STATE_TOPIC: &'static str = "homeassistant.get_state";

/// Topic that writes a new state; the body is `<entity id> <new value>`.
pub const SET_STATE_TOPIC: &'static str = "homeassistant.set_state";

/// Why a message ends without a reply of its result.
pub enum DispatchError {
    /// No handler is registered for the topic.
    UnknownTopic { topic: String },
    /// The body has the wrong number of fields for its topic.
    Malformed { text: String },
    /// The hub reported an error for a call about this entity.
    Remote { entity_id: String, detail: String },
    /// The hub answered, but with no state for the entity.
    NoState { entity_id: String },
}

/// A validated request.
pub enum Request {
    GetState { entity_id: String },
    SetState { entity_id: String, value: String },
    PostService { domain: String, service: String, entity_id: String },
}

/// A call on the hub.
pub enum RemoteCall {
    /// Read the state and attributes of an entity.
    FetchState { entity_id: String },
    /// Write a new state, keeping the attributes that the last fetch read.
    WriteState { entity_id: String, value: String },
    /// Call a service of a domain with the entity id as its only data.
    CallService { domain: String, service: String, entity_id: String },
}

/// What a message waits for while its remote call runs.
pub enum Pending {
    GetState { entity_id: String },
    ReadBeforeWrite { entity_id: String, value: String },
    SetState { entity_id: String },
    PostService { service: String, entity_id: String },
}

/// The next thing to do for a message.
pub enum Step {
    Call { call: RemoteCall, pending: Pending },
    Reply { text: String },
    Fail { error: DispatchError },
}

/// Fields of a text split at each single space; empty fields are kept.
pub open spec fn fields(s: Seq<char>) -> Seq<Seq<char>>
    decreases s.len(),
{
    if s.len() == 0 {
        seq![Seq::empty()]
    } else {
        let rest = fields(s.drop_last());
        if s.last() == ' ' {
            rest.push(Seq::empty())
        } else {
            rest.update(rest.len() - 1, rest.last().push(s.last()))
        }
    }
}

/// Splits a text at each single space.
pub fn split_fields(text: &str) -> (r: Vec<String>)
    ensures
        r@.map_values(|f: String| f@) == fields(text@),
{
    let n = text.unicode_len();
    let mut out: Vec<String> = Vec::new();
    let mut start: usize = 0;
    let mut i: usize = 0;
    assert(text@.subrange(0, 0) =~= Seq::<char>::empty());
    assert(out@.map_values(|f: String| f@).push(text@.subrange(0, 0)) =~= fields(
        text@.subrange(0, 0),
    ));
    while i < n
        invariant
            n == text@.len(),
            start <= i <= n,
            fields(text@.subrange(0, i as int)) == out@.map_values(|f: String| f@).push(
                text@.subrange(start as int, i as int),
            ),
        decreases n - i,
    {
        let c = text.get_char(i);
        let ghost pre = text@.subrange(0, i as int);
        assert(text@.subrange(0, i + 1).drop_last() =~= pre);
        assert(text@.subrange(0, i + 1).last() == c);
        let ghost old_out = out@.map_values(|f: String| f@);
        if c == ' ' {
            let f = String::from_str(text.substring_char(start, i));
            out.push(f);
            assert(out@.map_values(|f: String| f@) =~= old_out.push(
                text@.subrange(start as int, i as int),
            ));
            start = i + 1;
            assert(text@.subrange(start as int, i + 1) =~= Seq::<char>::empty());
        } else {
            assert(text@.subrange(start as int, i + 1) =~= text@.subrange(
                start as int,
                i as int,
            ).push(c));
            assert(old_out.push(text@.subrange(start as int, i as int)).update(
                old_out.len() as int,
                text@.subrange(start as int, i + 1),
            ) =~= old_out.push(text@.subrange(start as int, i + 1)));
        }
        i = i + 1;
    }
    let last = String::from_str(text.substring_char(start, n));
    let ghost old_out = out@.map_values(|f: String| f@);
    out.push(last);
    assert(out@.map_values(|f: String| f@) =~= old_out.push(text@.subrange(start as int, n as int)));
    assert(text@.subrange(0, n as int) =~= text@);
    out
}

/// Validates a message: its topic selects the request, and its body must have
/// the field count of that topic (the whole body is the entity id of a
/// get-state request, two fields make a set-state request, three a
/// post-service request).
pub fn parse_request(topic: &str, text: &str) -> (r: Result<Request, DispatchError>)
    ensures
        match r {
            Ok(Request::GetState { entity_id }) => topic@ == GET_STATE_TOPIC@ && entity_id@
                == text@,
            Ok(Request::SetState { entity_id, value }) => topic@ == SET_STATE_TOPIC@ && fields(
                text@,
            ).len() == 2 && entity_id@ == fields(text@)[0] && value@ == fields(text@)[1],
            Ok(Request::PostService { domain, service, entity_id }) => topic@
                == POST_SERVICE_TOPIC@ && fields(text@).len() == 3 && domain@ == fields(text@)[0]
                && service@ == fields(text@)[1] && entity_id@ == fields(text@)[2],
            Err(DispatchError::UnknownTopic { topic: t }) => t@ == topic@ && topic@
                != GET_STATE_TOPIC@ && topic@ != SET_STATE_TOPIC@ && topic@
                != POST_SERVICE_TOPIC@,
            Err(DispatchError::Malformed { text: t }) => t@ == text@ && ((topic@
                == SET_STATE_TOPIC@ && fields(text@).len() != 2) || (topic@
                == POST_SERVICE_TOPIC@ && fields(text@).len() != 3)),
            Err(_) => false,
        },
{
    if same_text(topic, GET_STATE_TOPIC) {
        Ok(Request::GetState { entity_id: String::from_str(text) })
    } else if same_text(topic, SET_STATE_TOPIC) {
        let parts = split_fields(text);
        proof {
            assert(parts@.map_values(|f: String| f@).len() == parts@.len());
        }
        if parts.len() != 2 {
            return Err(DispatchError::Malformed { text: String::from_str(text) });
        }
        proof {
            assert(parts@.map_values(|f: String| f@)[0] == parts@[0]@);
            assert(parts@.map_values(|f: String| f@)[1] == parts@[1]@);
        }
        Ok(Request::SetState { entity_id: parts[0].clone(), value: parts[1].clone() })
    } else if same_text(topic, POST_SERVICE_TOPIC) {
        let parts = split_fields(text);
        proof {
            assert(parts@.map_values(|f: String| f@).len() == parts@.len());
        }
        if parts.len() != 3 {
            return Err(DispatchError::Malformed { text: String::from_str(text) });
        }
        proof {
            assert(parts@.map_values(|f: String| f@)[0] == parts@[0]@);
            assert(parts@.map_values(|f: String| f@)[1] == parts@[1]@);
            assert(parts@.map_values(|f: String| f@)[2] == parts@[2]@);
        }
        Ok(
            Request::PostService {
                domain: parts[0].clone(),
                service: parts[1].clone(),
                entity_id: parts[2].clone(),
            },
        )
    } else {
        Err(DispatchError::UnknownTopic { topic: String::from_str(topic) })
    }
}

/// First step for an inbound message: the remote call that its request asks
/// for, or the failure of a message that names no handler or is malformed
/// (no remote call is made then).
pub fn receive(topic: &str, text: &str) -> (r: Step)
    ensures
        match r {
            Step::Call {
                call: RemoteCall::FetchState { entity_id },
                pending: Pending::GetState { entity_id: e },
            } => topic@ == GET_STATE_TOPIC@ && entity_id@ == text@ && e@ == text@,
            Step::Call {
                call: RemoteCall::FetchState { entity_id },
                pending: Pending::ReadBeforeWrite { entity_id: e, value },
            } => topic@ == SET_STATE_TOPIC@ && fields(text@).len() == 2 && entity_id@ == fields(
                text@,
            )[0] && e@ == fields(text@)[0] && value@ == fields(text@)[1],
            Step::Call {
                call: RemoteCall::CallService { domain, service, entity_id },
                pending: Pending::PostService { service: s, entity_id: e },
            } => topic@ == POST_SERVICE_TOPIC@ && fields(text@).len() == 3 && domain@ == fields(
                text@,
            )[0] && service@ == fields(text@)[1] && entity_id@ == fields(text@)[2] && s@
                == fields(text@)[1] && e@ == fields(text@)[2],
            Step::Fail { error: DispatchError::UnknownTopic { topic: t } } => t@ == topic@
                && topic@ != GET_STATE_TOPIC@ && topic@ != SET_STATE_TOPIC@ && topic@
                != POST_SERVICE_TOPIC@,
            Step::Fail { error: DispatchError::Malformed { text: t } } => t@ == text@ && ((topic@
                == SET_STATE_TOPIC@ && fields(text@).len() != 2) || (topic@
                == POST_SERVICE_TOPIC@ && fields(text@).len() != 3)),
            _ => false,
        },
{
    match parse_request(topic, text) {
        Ok(Request::GetState { entity_id }) => {
            let e = entity_id.clone();
            Step::Call {
                call: RemoteCall::FetchState { entity_id },
                pending: Pending::GetState { entity_id: e },
            }
        },
        Ok(Request::SetState { entity_id, value }) => {
            let e = entity_id.clone();
            Step::Call {
                call: RemoteCall::FetchState { entity_id },
                pending: Pending::ReadBeforeWrite { entity_id: e, value },
            }
        },
        Ok(Request::PostService { domain, service, entity_id }) => {
            let s = service.clone();
            let e = entity_id.clone();
            Step::Call {
                call: RemoteCall::CallService { domain, service, entity_id },
                pending: Pending::PostService { service: s, entity_id: e },
            }
        },
        Err(error) => Step::Fail { error },
    }
}

/// The reply to a read or a write whose outcome is `state`: its canonical
/// text, or the failure of an entity with no current state.
fn reply_with_state(entity_id: String, state: Option<StateValue>) -> (r: Step)
    ensures
        match state {
            Some(v) => r matches Step::Reply { text } && text@ == v.text(),
            None => r matches Step::Fail { error: DispatchError::NoState { entity_id: e } } && e@
                == entity_id@,
        },
{
    match state {
        Some(v) => Step::Reply { text: state_to_string(v) },
        None => Step::Fail { error: DispatchError::NoState { entity_id } },
    }
}

/// Next step once the hub has answered the remote call of `pending`.
///
/// `outcome` is the state that the hub returned (none for a service call),
/// or the text of its error. A get-state or set-state request replies with
/// the canonical text of the returned state; a post-service request echoes
/// the service name. A set-state request writes only after its read
/// succeeded. Any remote error fails the message, naming its entity.
pub fn advance(pending: Pending, outcome: Result<Option<StateValue>, String>) -> (r: Step)
    ensures
        match (pending, outcome) {
            (Pending::GetState { entity_id }, Ok(Some(v))) | (
                Pending::SetState { entity_id },
                Ok(Some(v)),
            ) => r matches Step::Reply { text } && text@ == v.text(),
            (Pending::GetState { entity_id }, Ok(None)) | (
                Pending::SetState { entity_id },
                Ok(None),
            ) => r matches Step::Fail { error: DispatchError::NoState { entity_id: e } } && e@
                == entity_id@,
            (Pending::ReadBeforeWrite { entity_id, value }, Ok(_)) => r matches Step::Call {
                call: RemoteCall::WriteState { entity_id: e, value: v },
                pending: Pending::SetState { entity_id: p },
            } && e@ == entity_id@ && v@ == value@ && p@ == entity_id@,
            (Pending::PostService { service, entity_id }, Ok(_)) => r matches Step::Reply { text }
                && text@ == service@,
            (Pending::GetState { entity_id }, Err(d)) | (Pending::SetState { entity_id }, Err(d))
            | (Pending::ReadBeforeWrite { entity_id, .. }, Err(d)) | (
                Pending::PostService { entity_id, .. },
                Err(d),
            ) => r matches Step::Fail { error: DispatchError::Remote { entity_id: e, detail } }
                && e@ == entity_id@ && detail@ == d@,
        },
{
    match pending {
        Pending::GetState { entity_id } | Pending::SetState { entity_id } => match outcome {
            Ok(state) => reply_with_state(entity_id, state),
            Err(detail) => Step::Fail { error: DispatchError::Remote { entity_id, detail } },
        },
        Pending::ReadBeforeWrite { entity_id, value } => match outcome {
            Ok(_) => {
                let p = entity_id.clone();
                Step::Call {
                    call: RemoteCall::WriteState { entity_id, value },
                    pending: Pending::SetState { entity_id: p },
                }
            },
            Err(detail) => Step::Fail { error: DispatchError::Remote { entity_id, detail } },
        },
        Pending::PostService { service, entity_id } => match outcome {
            Ok(_) => Step::Reply { text: service },
            Err(detail) => Step::Fail { error: DispatchError::Remote { entity_id, detail } },
        },
    }
}

/// The three topics are distinct.
pub proof fn lemma_topics_distinct()
    ensures
        GET_STATE_TOPIC@ != SET_STATE_TOPIC@,
        GET_STATE_TOPIC@ != POST_SERVICE_TOPIC@,
        SET_STATE_TOPIC@ != POST_SERVICE_TOPIC@,
{
    reveal_strlit("homeassistant.get_state");
    reveal_strlit("homeassistant.set_state");
    reveal_strlit("homeassistant.post_service");
    assert(GET_STATE_TOPIC@[14] != SET_STATE_TOPIC@[14]);
    assert(GET_STATE_TOPIC@.len() != POST_SERVICE_TOPIC@.len());
    assert(SET_STATE_TOPIC@.len() != POST_SERVICE_TOPIC@.len());
}

} // verus!
