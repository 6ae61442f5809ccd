//! The subscribe and unsubscribe frames on the wire.

use crate::json;
use crate::json::{json_of, json_text, Json};
use crate::types::{EventTrigger, Key, SubscribeParams, Symbol};
use serde_json::Value;
use vstd::prelude::*;

verus! {

/// The two methods of a subscription frame.
#[derive(Clone, Copy, PartialEq, Eq, Structural, Debug)]
pub enum SubscriptionMethod {
    Subscribe,
    Unsubscribe,
}

impl SubscriptionMethod {
    pub open spec fn wire_str_spec(self) -> Seq<char> {
        match self {
            SubscriptionMethod::Subscribe => "subscribe"@,
            SubscriptionMethod::Unsubscribe => "unsubscribe"@,
        }
    }

    pub fn wire_str(self) -> (name: &'static str)
        ensures
            name@ == self.wire_str_spec(),
    {
        match self {
            SubscriptionMethod::Subscribe => "subscribe",
            SubscriptionMethod::Unsubscribe => "unsubscribe",
        }
    }
}

impl SubscribeParams {
    /// The book depth on the wire.
    pub open spec fn wire_depth_spec(self) -> Option<u32> {
        match self {
            SubscribeParams::Book { depth } => Some(depth.maintained),
            SubscribeParams::BookRaw { depth, .. } => Some(depth.levels),
            _ => None,
        }
    }

    pub fn wire_depth(&self) -> (depth: Option<u32>)
        ensures
            depth == self.wire_depth_spec(),
    {
        match self {
            SubscribeParams::Book { depth } => Some(depth.maintained),
            SubscribeParams::BookRaw { depth, .. } => Some(depth.levels),
            _ => None,
        }
    }

    /// The candle interval on the wire.
    pub open spec fn wire_interval_spec(self) -> Option<u32> {
        match self {
            SubscribeParams::Ohlc { interval_minutes, .. } => Some(interval_minutes),
            _ => None,
        }
    }

    pub fn wire_interval(&self) -> (interval: Option<u32>)
        ensures
            interval == self.wire_interval_spec(),
    {
        match self {
            SubscribeParams::Ohlc { interval_minutes, .. } => Some(*interval_minutes),
            _ => None,
        }
    }

    /// Whether an opening snapshot is asked for; a maintained book always needs
    /// one.
    pub open spec fn wire_snapshot_spec(self) -> Option<bool> {
        match self {
            SubscribeParams::Ticker { snapshot, .. } => snapshot,
            SubscribeParams::Book { .. } => Some(true),
            SubscribeParams::BookRaw { snapshot, .. } => snapshot,
            SubscribeParams::Ohlc { snapshot, .. } => snapshot,
            SubscribeParams::Trade { snapshot } => snapshot,
            _ => None,
        }
    }

    pub fn wire_snapshot(&self) -> (snapshot: Option<bool>)
        ensures
            snapshot == self.wire_snapshot_spec(),
    {
        match self {
            SubscribeParams::Ticker { snapshot, .. } => *snapshot,
            SubscribeParams::Book { .. } => Some(true),
            SubscribeParams::BookRaw { snapshot, .. } => *snapshot,
            SubscribeParams::Ohlc { snapshot, .. } => *snapshot,
            SubscribeParams::Trade { snapshot } => *snapshot,
            _ => None,
        }
    }

    pub open spec fn wire_trigger_spec(self) -> Option<Seq<char>> {
        match self {
            SubscribeParams::Ticker { event_trigger: Some(EventTrigger::Bbo), .. } => Some("bbo"@),
            SubscribeParams::Ticker { event_trigger: Some(EventTrigger::Trades), .. } => Some(
                "trades"@,
            ),
            _ => None,
        }
    }

    pub fn wire_trigger(&self) -> (trigger: Option<&'static str>)
        ensures
            match trigger {
                Some(trigger) => self.wire_trigger_spec() == Some(trigger@),
                None => self.wire_trigger_spec() is None,
            },
    {
        match self {
            SubscribeParams::Ticker { event_trigger: Some(EventTrigger::Bbo), .. } => Some("bbo"),
            SubscribeParams::Ticker { event_trigger: Some(EventTrigger::Trades), .. } => Some(
                "trades",
            ),
            _ => None,
        }
    }
}

/// `members` with `value` under `key`, if there is a value.
pub open spec fn with_optional(
    members: Map<Seq<char>, Json>,
    key: Seq<char>,
    value: Option<Json>,
) -> Map<Seq<char>, Json> {
    match value {
        Some(value) => members.insert(key, value),
        None => members,
    }
}

/// The members that name a subscription: the channel, and the pair if it has
/// one.
pub open spec fn key_members(key: Key) -> Map<Seq<char>, Json> {
    with_optional(
        Json::no_members().insert("channel"@, Json::Text(key.channel.wire_str_spec())),
        "symbol"@,
        match key.pair {
            Some(pair) => Some(Json::Array(seq![Json::Text(pair@)])),
            None => None,
        },
    )
}

/// The `params` of a subscription frame. Depth and interval tell subscriptions
/// apart, so both methods carry them; snapshot and trigger shape the stream and
/// stand on a subscribe only.
pub open spec fn params_members(
    method: SubscriptionMethod,
    key: Key,
    params: SubscribeParams,
) -> Map<Seq<char>, Json> {
    let members = with_optional(
        key_members(key),
        "depth"@,
        match params.wire_depth_spec() {
            Some(depth) => Some(Json::UInt(depth as u64)),
            None => None,
        },
    );
    let members = with_optional(
        members,
        "interval"@,
        match params.wire_interval_spec() {
            Some(interval) => Some(Json::UInt(interval as u64)),
            None => None,
        },
    );
    if method == SubscriptionMethod::Subscribe {
        let members = with_optional(
            members,
            "snapshot"@,
            match params.wire_snapshot_spec() {
                Some(snapshot) => Some(Json::Bool(snapshot)),
                None => None,
            },
        );
        with_optional(
            members,
            "event_trigger"@,
            match params.wire_trigger_spec() {
                Some(trigger) => Some(Json::Text(trigger)),
                None => None,
            },
        )
    } else {
        members
    }
}

/// The frame with the given method, params and request id.
pub open spec fn request_json(method: Seq<char>, params: Json, req_id: u64) -> Json {
    Json::Object(
        Json::no_members().insert("method"@, Json::Text(method)).insert("params"@, params).insert(
            "req_id"@,
            Json::UInt(req_id),
        ),
    )
}

/// The frame that subscribes to, or unsubscribes from, `key`.
pub open spec fn subscription_json(
    method: SubscriptionMethod,
    key: Key,
    params: SubscribeParams,
    req_id: u64,
) -> Json {
    request_json(
        method.wire_str_spec(),
        Json::Object(params_members(method, key, params)),
        req_id,
    )
}

/// `frame` with the token in its `params`.
pub open spec fn tokened(frame: Json, token: Seq<char>) -> Json {
    match frame.get("params"@) {
        Some(params) => frame.with("params"@, params.with("token"@, Json::Text(token))),
        None => frame,
    }
}

/// `frame` under another request id.
pub open spec fn stamped(frame: Json, req_id: u64) -> Json {
    frame.with("req_id"@, Json::UInt(req_id))
}

/// The unsubscribe frame of a teardown. Without the params of the subscription
/// it names the key alone.
pub open spec fn unsubscribe_json(
    key: Key,
    params: Option<SubscribeParams>,
    token: Option<Seq<char>>,
) -> Json {
    let frame = match params {
        Some(params) => subscription_json(SubscriptionMethod::Unsubscribe, key, params, 0),
        None => request_json("unsubscribe"@, Json::Object(key_members(key)), 0),
    };
    match token {
        Some(token) => tokened(frame, token),
        None => frame,
    }
}

fn symbol_array(pair: &Symbol) -> (value: Value)
    ensures
        json_of(value) == Json::Array(seq![Json::Text(pair@)]),
{
    let mut items: Vec<Value> = Vec::new();
    items.push(json::text_value(pair.name.clone()));
    proof {
        assert(items@.map_values(|v: Value| json_of(v)) =~= seq![Json::Text(pair@)]);
    }
    json::array_value(items)
}

fn key_object(key: &Key) -> (members: serde_json::Map<String, Value>)
    ensures
        json::members_of(members) == key_members(*key),
{
    let mut members = json::no_members();
    json::set_member(
        &mut members,
        "channel",
        json::text_value(key.channel.wire_str().to_owned()),
    );
    match &key.pair {
        Some(pair) => {
            json::set_member(&mut members, "symbol", symbol_array(pair));
        },
        None => {},
    }
    members
}

/// Composes a request frame.
pub fn request_frame(method: &str, params: Value, req_id: u64) -> (frame: Value)
    ensures
        json_of(frame) == request_json(method@, json_of(params), req_id),
{
    let mut members = json::no_members();
    json::set_member(&mut members, "method", json::text_value(method.to_owned()));
    json::set_member(&mut members, "params", params);
    json::set_member(&mut members, "req_id", json::uint_value(req_id));
    json::object_value(members)
}

/// Composes the frame that subscribes to, or unsubscribes from, `key`.
pub fn build_subscribe_frame(
    method: SubscriptionMethod,
    key: &Key,
    params: &SubscribeParams,
    req_id: u64,
) -> (frame: Value)
    ensures
        json_of(frame) == subscription_json(method, *key, *params, req_id),
{
    let mut members = key_object(key);
    match params.wire_depth() {
        Some(depth) => json::set_member(&mut members, "depth", json::uint_value(depth as u64)),
        None => {},
    }
    match params.wire_interval() {
        Some(interval) => json::set_member(
            &mut members,
            "interval",
            json::uint_value(interval as u64),
        ),
        None => {},
    }
    if method == SubscriptionMethod::Subscribe {
        match params.wire_snapshot() {
            Some(snapshot) => json::set_member(
                &mut members,
                "snapshot",
                json::bool_value(snapshot),
            ),
            None => {},
        }
        match params.wire_trigger() {
            Some(trigger) => json::set_member(
                &mut members,
                "event_trigger",
                json::text_value(trigger.to_owned()),
            ),
            None => {},
        }
    }
    request_frame(method.wire_str(), json::object_value(members), req_id)
}

/// Puts the token into the `params` of a frame.
pub fn inject_token(frame: Value, token: &str) -> (changed: Value)
    ensures
        json_of(changed) == tokened(json_of(frame), token@),
{
    match json::into_object(frame) {
        Ok(mut members) => {
            let ghost before = json::members_of(members);
            match json::take_member(&mut members, "params") {
                Some(params) => {
                    let params = json::with_member(
                        params,
                        "token",
                        json::text_value(token.to_owned()),
                    );
                    json::set_member(&mut members, "params", params);
                    proof {
                        assert(json::members_of(members) =~= before.insert(
                            "params"@,
                            json_of(params),
                        ));
                    }
                },
                None => {
                    proof {
                        assert(json::members_of(members) =~= before);
                    }
                },
            }
            json::object_value(members)
        },
        Err(same) => same,
    }
}

/// Puts a request id on a frame.
pub fn stamp_req_id(frame: Value, req_id: u64) -> (changed: Value)
    ensures
        json_of(changed) == stamped(json_of(frame), req_id),
{
    json::with_member(frame, "req_id", json::uint_value(req_id))
}

/// Composes the text of the unsubscribe frame for `key`. It goes through the
/// same composition as the subscribe, so that depth and interval cannot drift
/// apart; the token is put in for auth channels.
pub fn compose_unsubscribe_frame(
    key: &Key,
    params: &Option<SubscribeParams>,
    token: &Option<String>,
) -> (text: String)
    ensures
        text@ == json_text(
            unsubscribe_json(
                *key,
                *params,
                match *token {
                    Some(token) => Some(token@),
                    None => None,
                },
            ),
        ),
{
    let frame = match params {
        Some(params) => build_subscribe_frame(SubscriptionMethod::Unsubscribe, key, params, 0),
        None => request_frame("unsubscribe", json::object_value(key_object(key)), 0),
    };
    let frame = match token {
        Some(token) => inject_token(frame, token.as_str()),
        None => frame,
    };
    json::text_of(&frame)
}

proof fn names_differ()
    ensures
        "channel"@ != "symbol"@,
        "channel"@ != "depth"@,
        "channel"@ != "interval"@,
        "channel"@ != "snapshot"@,
        "channel"@ != "event_trigger"@,
        "channel"@ != "token"@,
        "symbol"@ != "depth"@,
        "symbol"@ != "interval"@,
        "symbol"@ != "snapshot"@,
        "symbol"@ != "event_trigger"@,
        "symbol"@ != "token"@,
        "depth"@ != "interval"@,
        "depth"@ != "snapshot"@,
        "depth"@ != "event_trigger"@,
        "depth"@ != "token"@,
        "interval"@ != "snapshot"@,
        "interval"@ != "event_trigger"@,
        "interval"@ != "token"@,
        "snapshot"@ != "event_trigger"@,
        "snapshot"@ != "token"@,
        "event_trigger"@ != "token"@,
        "method"@ != "params"@,
        "method"@ != "req_id"@,
        "params"@ != "req_id"@,
{
    reveal_strlit("channel");
    reveal_strlit("symbol");
    reveal_strlit("depth");
    reveal_strlit("interval");
    reveal_strlit("snapshot");
    reveal_strlit("event_trigger");
    reveal_strlit("token");
    reveal_strlit("method");
    reveal_strlit("params");
    reveal_strlit("req_id");
    assert("channel"@[0] == 'c');
    assert("symbol"@[0] == 's' && "symbol"@[1] == 'y');
    assert("depth"@[0] == 'd');
    assert("interval"@[0] == 'i');
    assert("snapshot"@[0] == 's' && "snapshot"@[1] == 'n');
    assert("event_trigger"@[0] == 'e');
    assert("token"@[0] == 't');
    assert("method"@[0] == 'm');
    assert("params"@[0] == 'p');
    assert("req_id"@[0] == 'r');
}

/// An unsubscribe names its subscription exactly as the subscribe did: the same
/// channel, pair, depth and interval. What shapes the stream stands on the
/// subscribe alone.
pub proof fn unsubscribe_echoes_subscribe(key: Key, params: SubscribeParams, req_id: u64)
    ensures
        ({
            let subscribe = subscription_json(
                SubscriptionMethod::Subscribe,
                key,
                params,
                req_id,
            ).get("params"@)->Some_0;
            let unsubscribe = unsubscribe_json(key, Some(params), None).get("params"@)->Some_0;
            &&& unsubscribe.get("channel"@) == subscribe.get("channel"@)
            &&& unsubscribe.get("symbol"@) == subscribe.get("symbol"@)
            &&& unsubscribe.get("depth"@) == subscribe.get("depth"@)
            &&& unsubscribe.get("interval"@) == subscribe.get("interval"@)
            &&& unsubscribe.get("snapshot"@) is None
            &&& unsubscribe.get("event_trigger"@) is None
            &&& unsubscribe.get("token"@) is None
        }),
{
    names_differ();
}

/// An unsubscribe with a token carries it in its params, beside everything that it
/// carries without one.
pub proof fn unsubscribe_carries_its_token(
    key: Key,
    params: Option<SubscribeParams>,
    token: Seq<char>,
    name: Seq<char>,
)
    ensures
        ({
            let plain = unsubscribe_json(key, params, None);
            let signed = unsubscribe_json(key, params, Some(token));
            &&& signed.get("params"@)->Some_0.str_at("token"@) == Some(token)
            &&& name != "token"@ ==> signed.get("params"@)->Some_0.get(name) == plain.get(
                "params"@,
            )->Some_0.get(name)
            &&& name != "params"@ ==> signed.get(name) == plain.get(name)
        }),
{
    names_differ();
}

/// A request frame reads back as what it was composed of.
pub proof fn request_frame_reads_back(method: Seq<char>, params: Json, req_id: u64)
    ensures
        request_json(method, params, req_id).str_at("method"@) == Some(method),
        request_json(method, params, req_id).get("params"@) == Some(params),
        request_json(method, params, req_id).u64_at("req_id"@) == Some(req_id),
{
    names_differ();
}

/// A request id can be put on a frame and read from it, and changes nothing else.
pub proof fn stamp_reads_back(frame: Json, req_id: u64, name: Seq<char>)
    requires
        frame is Object,
    ensures
        stamped(frame, req_id).u64_at("req_id"@) == Some(req_id),
        name != "req_id"@ ==> stamped(frame, req_id).get(name) == frame.get(name),
{
}

/// A subscription frame says what it is for: its method, its request id, the channel
/// and the pair, the depth of a book (the maintained one, or the raw one's levels),
/// the interval of a candle, and on a subscribe whether a snapshot is wanted and what
/// a ticker is triggered by. It carries no token.
pub proof fn a_subscription_frame_says_what_it_is_for(
    method: SubscriptionMethod,
    key: Key,
    params: SubscribeParams,
    req_id: u64,
)
    ensures
        ({
            let frame = subscription_json(method, key, params, req_id);
            let inner = frame.get("params"@)->Some_0;
            let subscribes = method == SubscriptionMethod::Subscribe;
            let wanted = match params {
                SubscribeParams::Ticker { snapshot, .. } => snapshot,
                SubscribeParams::Book { .. } => Some(true),
                SubscribeParams::BookRaw { snapshot, .. } => snapshot,
                SubscribeParams::Ohlc { snapshot, .. } => snapshot,
                SubscribeParams::Trade { snapshot } => snapshot,
                _ => None,
            };
            &&& frame.get("params"@) is Some
            &&& frame.str_at("method"@) == Some(
                if subscribes {
                    "subscribe"@
                } else {
                    "unsubscribe"@
                },
            )
            &&& frame.u64_at("req_id"@) == Some(req_id)
            &&& inner.str_at("channel"@) == Some(key.channel.wire_str_spec())
            &&& inner.get("symbol"@) == match key.pair {
                Some(pair) => Some(Json::Array(seq![Json::Text(pair@)])),
                None => None,
            }
            &&& inner.get("depth"@) == match params {
                SubscribeParams::Book { depth } => Some(Json::UInt(depth.maintained as u64)),
                SubscribeParams::BookRaw { depth, .. } => Some(Json::UInt(depth.levels as u64)),
                _ => None,
            }
            &&& inner.get("interval"@) == match params {
                SubscribeParams::Ohlc { interval_minutes, .. } => Some(
                    Json::UInt(interval_minutes as u64),
                ),
                _ => None,
            }
            &&& inner.get("snapshot"@) == match wanted {
                Some(wanted) => if subscribes {
                    Some(Json::Bool(wanted))
                } else {
                    None
                },
                None => None,
            }
            &&& inner.get("event_trigger"@) == match params {
                SubscribeParams::Ticker { event_trigger: Some(trigger), .. } => if subscribes {
                    Some(
                        Json::Text(
                            match trigger {
                                EventTrigger::Bbo => "bbo"@,
                                EventTrigger::Trades => "trades"@,
                            },
                        ),
                    )
                } else {
                    None
                },
                _ => None,
            }
            &&& inner.get("token"@) is None
        }),
{
    names_differ();
}

/// An unsubscribe is one, goes under no request id of its own, and names its
/// subscription even where the params of that are gone.
pub proof fn an_unsubscribe_names_its_subscription(
    key: Key,
    params: Option<SubscribeParams>,
    token: Option<Seq<char>>,
)
    ensures
        ({
            let frame = unsubscribe_json(key, params, token);
            let inner = frame.get("params"@)->Some_0;
            &&& frame.str_at("method"@) == Some("unsubscribe"@)
            &&& frame.u64_at("req_id"@) == Some(0u64)
            &&& inner.str_at("channel"@) == Some(key.channel.wire_str_spec())
            &&& inner.get("symbol"@) == match key.pair {
                Some(pair) => Some(Json::Array(seq![Json::Text(pair@)])),
                None => None,
            }
            &&& inner.str_at("token"@) == token
        }),
{
    names_differ();
}

} // verus!
