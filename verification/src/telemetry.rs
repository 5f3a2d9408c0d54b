//! Telemetry: events to track, their Mixpanel representation, and buffering until submission

use crate::json::reader::string_chars;
use crate::json::value::{field_values_well_formed, well_formed, JsonValue, Value};
use crate::json::writer::{
    elems_text, lemma_elems_text_push, value_text, ArrayWriter, ObjectWriter, Writer,
};
use crate::nfc::Uid;
use crate::ota::chars_to_string;
use crate::text::{ascii_chars, decimal_digits, hex_lower, push_decimal_u64};
use vstd::prelude::*;

verus! {

/// Time after which events are flushed even when the queue isn't filled yet, in seconds
pub const MAX_BUFFER_DURATION: u64 = 30;

/// Max number of events to buffer before flushing
pub const MAX_BUFFER_EVENTS: usize = 10;

/// Telemetry event
#[derive(Debug)]
pub enum Event {
    /// System start
    SystemStart,
    /// Articles and users refreshed (article count, NFC uid count, user count)
    DataRefreshed(usize, usize, usize),
    /// User authentication failed (NFC uid)
    AuthenticationFailed(Uid),
    /// User authentication successful (user id, NFC uid)
    UserAuthenticated(u32, Uid),
    /// Article purchased (user id, article id, amount, total price; amounts as decimal text)
    ArticlePurchased(u32, String, String, String),
    /// Error occured (optional user id, error message)
    Error(Option<u32>, String),
}

/// Event name as reported to the server
pub open spec fn spec_event_name(e: Event) -> Seq<char> {
    match e {
        Event::SystemStart => "system_start"@,
        Event::DataRefreshed(..) => "data_refreshed"@,
        Event::AuthenticationFailed(..) => "authentication_failed"@,
        Event::UserAuthenticated(..) => "user_authenticated"@,
        Event::ArticlePurchased(..) => "article_purchased"@,
        Event::Error(..) => "error"@,
    }
}

/// User id associated with an event, if any
pub open spec fn spec_user_id(e: Event) -> Option<u32> {
    match e {
        Event::UserAuthenticated(id, _) => Some(id),
        Event::ArticlePurchased(id, ..) => Some(id),
        Event::Error(id, _) => id,
        _ => None,
    }
}

/// A count as a JSON integer
pub open spec fn count_value(n: usize) -> JsonValue {
    JsonValue::Integer(n as i64)
}

/// Hex text of a UID
pub open spec fn uid_text(u: Uid) -> Seq<char> {
    ascii_chars(hex_lower(u@))
}

/// Event-specific custom properties
pub open spec fn spec_extra_fields(e: Event) -> Seq<(Seq<char>, JsonValue)> {
    match e {
        Event::SystemStart => seq![],
        Event::DataRefreshed(a, u, n) => seq![
            ("article_count"@, count_value(a)),
            ("uid_count"@, count_value(u)),
            ("user_count"@, count_value(n)),
        ],
        Event::AuthenticationFailed(uid) => seq![("uid"@, JsonValue::String(uid_text(uid)))],
        Event::UserAuthenticated(_, uid) => seq![("uid"@, JsonValue::String(uid_text(uid)))],
        Event::ArticlePurchased(_, id, amount, total) => seq![
            ("article_id"@, JsonValue::String(id@)),
            ("amount"@, JsonValue::Decimal(amount@)),
            ("total_price"@, JsonValue::Decimal(total@)),
        ],
        Event::Error(_, message) => seq![("error_message"@, JsonValue::String(message@))],
    }
}

/// The card events carry the card's UID as property `uid`, in lower case hex: an authenticated
/// user's event carries the same property as a failed authentication with that card
pub proof fn law_card_events_carry_uid(id: u32, u: Uid)
    ensures
        spec_extra_fields(Event::UserAuthenticated(id, u)) == seq![
            ("uid"@, JsonValue::String(ascii_chars(hex_lower(u@)))),
        ],
        spec_extra_fields(Event::AuthenticationFailed(u)) == seq![
            ("uid"@, JsonValue::String(ascii_chars(hex_lower(u@)))),
        ],
{
}

/// The event-specific properties of each event: none at system start; the three counts of a data
/// refresh, in the order articles, card UIDs, users; the card's UID of an authentication; the
/// article, amount and total price of a purchase; the message of an error
pub proof fn law_event_properties(e: Event)
    ensures
        match e {
            Event::SystemStart => spec_extra_fields(e).len() == 0,
            Event::DataRefreshed(a, u, n) => spec_extra_fields(e) == seq![
                ("article_count"@, JsonValue::Integer(a as i64)),
                ("uid_count"@, JsonValue::Integer(u as i64)),
                ("user_count"@, JsonValue::Integer(n as i64)),
            ],
            Event::AuthenticationFailed(u) => spec_extra_fields(e) == seq![
                ("uid"@, JsonValue::String(ascii_chars(hex_lower(u@)))),
            ],
            Event::UserAuthenticated(_, u) => spec_extra_fields(e) == seq![
                ("uid"@, JsonValue::String(ascii_chars(hex_lower(u@)))),
            ],
            Event::ArticlePurchased(_, id, amount, total) => spec_extra_fields(e) == seq![
                ("article_id"@, JsonValue::String(id@)),
                ("amount"@, JsonValue::Decimal(amount@)),
                ("total_price"@, JsonValue::Decimal(total@)),
            ],
            Event::Error(_, message) => spec_extra_fields(e) == seq![
                ("error_message"@, JsonValue::String(message@)),
            ],
        },
{
}

/// The distinct id of an event is the user's id in decimal for events of a user (an
/// authenticated user, a purchase, an error of a known user), and the device id for the others
pub proof fn law_distinct_id(e: Event, device_id: Seq<char>)
    ensures
        match e {
            Event::UserAuthenticated(id, _) => spec_distinct_id(e, device_id) == ascii_chars(
                decimal_digits(id as nat),
            ),
            Event::ArticlePurchased(id, ..) => spec_distinct_id(e, device_id) == ascii_chars(
                decimal_digits(id as nat),
            ),
            Event::Error(Some(id), _) => spec_distinct_id(e, device_id) == ascii_chars(
                decimal_digits(id as nat),
            ),
            _ => spec_distinct_id(e, device_id) == device_id,
        },
{
}

/// Counts of an event fit into JSON integers
pub open spec fn counts_fit(e: Event) -> bool {
    match e {
        Event::DataRefreshed(a, u, n) => a <= i64::MAX && u <= i64::MAX && n <= i64::MAX,
        _ => true,
    }
}

/// Distinct id of an event: its user id (in decimal) if it has one, else the device id
pub open spec fn spec_distinct_id(e: Event, device_id: Seq<char>) -> Seq<char> {
    match spec_user_id(e) {
        Some(id) => ascii_chars(decimal_digits(id as nat)),
        None => device_id,
    }
}

/// Properties of a Mixpanel event: the reserved ones (token, time in milliseconds, distinct id),
/// the global custom ones (firmware version and git hash, device id), then the event's own
pub open spec fn spec_mixpanel_properties(
    e: Event,
    token: Seq<char>,
    time_ms: i64,
    device_id: Seq<char>,
    version: Seq<char>,
    git_sha: Seq<char>,
) -> Seq<(Seq<char>, JsonValue)> {
    seq![
        ("token"@, JsonValue::String(token)),
        ("time"@, JsonValue::Integer(time_ms)),
        ("distinct_id"@, JsonValue::String(spec_distinct_id(e, device_id))),
        ("firmware_version"@, JsonValue::String(version)),
        ("firmware_git_sha"@, JsonValue::String(git_sha)),
        ("device_id"@, JsonValue::String(device_id)),
    ] + spec_extra_fields(e)
}

/// Mixpanel event: name and properties
pub open spec fn spec_mixpanel_event(
    e: Event,
    token: Seq<char>,
    time_ms: i64,
    device_id: Seq<char>,
    version: Seq<char>,
    git_sha: Seq<char>,
) -> JsonValue {
    JsonValue::Object(
        seq![
            ("event"@, JsonValue::String(spec_event_name(e))),
            (
                "properties"@,
                JsonValue::Object(
                    spec_mixpanel_properties(e, token, time_ms, device_id, version, git_sha),
                ),
            ),
        ],
    )
}

/// Field of a JSON object
fn field(key: &str, value: Value) -> (r: (String, Value))
    ensures
        r.0@ == key@,
        r.1 == value,
{
    (String::from_str(key), value)
}

/// String value of a text
fn text_value(s: &str) -> (r: Value)
    ensures
        r@ == JsonValue::String(s@),
{
    Value::String(String::from_str(s))
}

impl Event {
    /// Event name as reported to server
    pub fn event_name(&self) -> (r: &'static str)
        ensures
            r@ == spec_event_name(*self),
    {
        match self {
            Event::SystemStart => "system_start",
            Event::DataRefreshed(..) => "data_refreshed",
            Event::AuthenticationFailed(..) => "authentication_failed",
            Event::UserAuthenticated(..) => "user_authenticated",
            Event::ArticlePurchased(..) => "article_purchased",
            Event::Error(..) => "error",
        }
    }

    /// User id associated with this event, if any
    pub fn user_id(&self) -> (r: Option<u32>)
        ensures
            r == spec_user_id(*self),
    {
        match self {
            Event::SystemStart => None,
            Event::DataRefreshed(..) => None,
            Event::AuthenticationFailed(..) => None,
            Event::UserAuthenticated(user_id, ..) => Some(*user_id),
            Event::ArticlePurchased(user_id, ..) => Some(*user_id),
            Event::Error(user_id, ..) => *user_id,
        }
    }

    /// Event-specific custom properties, as JSON object fields in order; a count too large for
    /// a JSON integer is an error
    pub fn extra_fields(&self) -> (r: Result<Vec<(String, Value)>, crate::json::error::Error>)
        ensures
            counts_fit(*self) ==> (r matches Ok(fs) && crate::json::value::fields_view(fs@)
                == spec_extra_fields(*self)),
            !counts_fit(*self) ==> r == Err::<Vec<(String, Value)>, crate::json::error::Error>(
                crate::json::error::Error::NumberTooLarge,
            ),
    {
        let mut fs: Vec<(String, Value)> = Vec::new();
        match self {
            Event::SystemStart => {},
            Event::DataRefreshed(a, u, n) => {
                if *a as u64 > 9223372036854775807u64 || *u as u64 > 9223372036854775807u64
                    || *n as u64 > 9223372036854775807u64 {
                    return Err(crate::json::error::Error::NumberTooLarge);
                }
                fs.push(field("article_count", Value::Integer(*a as i64)));
                fs.push(field("uid_count", Value::Integer(*u as i64)));
                fs.push(field("user_count", Value::Integer(*n as i64)));
            },
            Event::AuthenticationFailed(uid) => {
                fs.push(field("uid", Value::String(uid.to_string())));
            },
            Event::UserAuthenticated(_, uid) => {
                fs.push(field("uid", Value::String(uid.to_string())));
            },
            Event::ArticlePurchased(_, id, amount, total) => {
                fs.push(field("article_id", text_value(id.as_str())));
                fs.push(field("amount", Value::Decimal(String::from_str(amount.as_str()))));
                fs.push(field("total_price", Value::Decimal(String::from_str(total.as_str()))));
            },
            Event::Error(_, message) => {
                fs.push(field("error_message", text_value(message.as_str())));
            },
        }
        proof {
            reveal_with_fuel(crate::json::value::fields_view, 4);
        }
        assert(crate::json::value::fields_view(fs@) =~= spec_extra_fields(*self));
        Ok(fs)
    }

    /// Distinct id: the user id (in decimal) if the event has one, else the device id
    pub fn distinct_id(&self, device_id: &str) -> (r: String)
        ensures
            r@ == spec_distinct_id(*self, device_id@),
    {
        match self.user_id() {
            Some(id) => {
                let mut digits: Vec<u8> = Vec::new();
                push_decimal_u64(id as u64, &mut digits);
                assert(digits@ =~= decimal_digits(id as nat));
                proof {
                    crate::text::lemma_decimal_digits_props(id as nat);
                }
                assert forall|i: int| 0 <= i < digits@.len() implies digits@[i] < 128 by {
                    assert(crate::text::is_digit(decimal_digits(id as nat)[i]));
                }
                crate::text::ascii_to_string(digits.as_slice())
            },
            None => String::from_str(device_id),
        }
    }

    /// Properties of the Mixpanel event for submission: reserved properties (token, time in
    /// milliseconds, distinct id), global custom properties (firmware version and git hash,
    /// device id) and the event-specific ones
    pub fn mixpanel_properties(
        &self,
        token: &str,
        time_ms: i64,
        device_id: &str,
        version: &str,
        git_sha: &str,
    ) -> (r: Result<Vec<(String, Value)>, crate::json::error::Error>)
        ensures
            counts_fit(*self) ==> (r matches Ok(fs) && crate::json::value::fields_view(fs@)
                == spec_mixpanel_properties(*self, token@, time_ms, device_id@, version@, git_sha@)),
            !counts_fit(*self) ==> r is Err,
    {
        let extra = match self.extra_fields() {
            Ok(fs) => fs,
            Err(e) => return Err(e),
        };
        let mut props: Vec<(String, Value)> = Vec::new();
        props.push(field("token", text_value(token)));
        props.push(field("time", Value::Integer(time_ms)));
        props.push(field("distinct_id", Value::String(self.distinct_id(device_id))));
        props.push(field("firmware_version", text_value(version)));
        props.push(field("firmware_git_sha", text_value(git_sha)));
        props.push(field("device_id", text_value(device_id)));
        let ghost base = props@;
        let ghost ex = extra@;
        let mut extra = extra;
        props.append(&mut extra);
        proof {
            reveal_with_fuel(crate::json::value::fields_view, 7);
            lemma_fields_view_concat(base, ex);
            assert(crate::json::value::fields_view(base) =~= seq![
                ("token"@, JsonValue::String(token@)),
                ("time"@, JsonValue::Integer(time_ms)),
                ("distinct_id"@, JsonValue::String(spec_distinct_id(*self, device_id@))),
                ("firmware_version"@, JsonValue::String(version@)),
                ("firmware_git_sha"@, JsonValue::String(git_sha@)),
                ("device_id"@, JsonValue::String(device_id@)),
            ]);
        }
        assert(props@ =~= base + ex);
        assert(crate::json::value::fields_view(props@) =~= spec_mixpanel_properties(
            *self,
            token@,
            time_ms,
            device_id@,
            version@,
            git_sha@,
        ));
        Ok(props)
    }

    /// Write the Mixpanel event for submission as a JSON object: its name and its properties
    pub fn write_mixpanel_event(
        &self,
        json: &mut Writer,
        token: &str,
        time_ms: i64,
        device_id: &str,
        version: &str,
        git_sha: &str,
    ) -> (r: Result<(), crate::json::error::Error>)
        ensures
            counts_fit(*self) ==> r is Ok && final(json).written() == old(json).written()
                + value_text(
                spec_mixpanel_event(*self, token@, time_ms, device_id@, version@, git_sha@),
            ),
            !counts_fit(*self) ==> r is Err,
    {
        let props = match self.mixpanel_properties(token, time_ms, device_id, version, git_sha) {
            Ok(p) => p,
            Err(e) => return Err(e),
        };
        let ghost pv = crate::json::value::fields_view(props@);
        proof {
            lemma_properties_well_formed(*self, token@, time_ms, device_id@, version@, git_sha@);
        }
        let ghost before = json.written();
        let mut obj = ObjectWriter::new(json);
        let name = text_value(self.event_name());
        let _ = obj.field(json, "event", &name);
        let ghost t1 = json.written();
        assert(t1 == before + seq![0x7bu8] + crate::json::writer::field_text(
            "event"@,
            JsonValue::String(spec_event_name(*self)),
        ));
        let _ = obj.field_object(json, "properties", props.as_slice());
        let ghost t2 = json.written();
        assert(t2 == t1 + crate::json::writer::comma_text() + crate::json::writer::field_text(
            "properties"@,
            JsonValue::Object(pv),
        ));
        let _ = obj.finish(json);
        let ghost fs = seq![
            ("event"@, JsonValue::String(spec_event_name(*self))),
            ("properties"@, JsonValue::Object(pv)),
        ];
        proof {
            reveal_with_fuel(crate::json::writer::fields_text, 3);
            assert(fs.drop_first() =~= seq![("properties"@, JsonValue::Object(pv))]);
            assert(crate::json::writer::fields_text(fs.drop_first())
                == crate::json::writer::field_text("properties"@, JsonValue::Object(pv)));
            assert(crate::json::writer::fields_text(fs) =~= crate::json::writer::field_text(
                "event"@,
                JsonValue::String(spec_event_name(*self)),
            ) + crate::json::writer::comma_text() + crate::json::writer::field_text(
                "properties"@,
                JsonValue::Object(pv),
            ));
            assert(json.written() =~= before + value_text(JsonValue::Object(fs)));
        }
        Ok(())
    }
}

/// The properties of a Mixpanel event hold no arrays or objects
proof fn lemma_properties_well_formed(
    e: Event,
    token: Seq<char>,
    time_ms: i64,
    device_id: Seq<char>,
    version: Seq<char>,
    git_sha: Seq<char>,
)
    ensures
        field_values_well_formed(
            spec_mixpanel_properties(e, token, time_ms, device_id, version, git_sha),
        ),
{
    let ps = spec_mixpanel_properties(e, token, time_ms, device_id, version, git_sha);
    assert forall|i: int| 0 <= i < ps.len() implies well_formed(#[trigger] ps[i].1) by {
        if i >= 6 {
            let x = spec_extra_fields(e);
            assert(ps[i] == x[i - 6]);
        }
    }
}

/// Model of concatenated fields
pub proof fn lemma_fields_view_concat(a: Seq<(String, Value)>, b: Seq<(String, Value)>)
    ensures
        crate::json::value::fields_view(a + b) == crate::json::value::fields_view(a)
            + crate::json::value::fields_view(b),
    decreases b.len(),
{
    if b.len() == 0 {
        assert(a + b =~= a);
        assert(crate::json::value::fields_view(a) + crate::json::value::fields_view(b)
            =~= crate::json::value::fields_view(a));
    } else {
        lemma_fields_view_concat(a, b.drop_last());
        assert((a + b).drop_last() =~= a + b.drop_last());
        assert(crate::json::value::fields_view(a + b) =~= crate::json::value::fields_view(a)
            + crate::json::value::fields_view(b));
    }
}

/// Mixpanel events of tracked events (each with its time in milliseconds since the epoch)
pub open spec fn spec_mixpanel_events(
    events: Seq<(i64, Event)>,
    token: Seq<char>,
    device_id: Seq<char>,
    version: Seq<char>,
    git_sha: Seq<char>,
) -> Seq<JsonValue> {
    Seq::new(
        events.len(),
        |i: int| spec_mixpanel_event(events[i].1, token, events[i].0, device_id, version, git_sha),
    )
}

/// All counts of the tracked events fit into JSON integers
pub open spec fn all_counts_fit(events: Seq<(i64, Event)>) -> bool {
    forall|i: int| 0 <= i < events.len() ==> counts_fit(#[trigger] events[i].1)
}

/// JSON body of a Mixpanel `track` request: the array of the events' Mixpanel representations
pub fn track_request_body(
    events: &[(i64, Event)],
    token: &str,
    device_id: &str,
    version: &str,
    git_sha: &str,
) -> (r: Result<Vec<u8>, crate::json::error::Error>)
    ensures
        all_counts_fit(events@) ==> (r matches Ok(body) && body@ == value_text(
            JsonValue::Array(spec_mixpanel_events(events@, token@, device_id@, version@, git_sha@)),
        )),
        !all_counts_fit(events@) ==> r is Err,
{
    let mut writer = Writer::new(Vec::new());
    let mut array = ArrayWriter::new(&mut writer);
    let mut i: usize = 0;
    assert(spec_mixpanel_events(events@.take(0), token@, device_id@, version@, git_sha@)
        =~= Seq::<JsonValue>::empty());
    while i < events.len()
        invariant
            i <= events@.len(),
            array.started() == (i > 0),
            writer.written() == seq![0x5bu8] + elems_text(
                spec_mixpanel_events(events@.take(i as int), token@, device_id@, version@, git_sha@),
            ),
            all_counts_fit(events@.take(i as int)),
        decreases events.len() - i,
    {
        let (time_ms, event) = &events[i];
        let ghost prev = spec_mixpanel_events(
            events@.take(i as int),
            token@,
            device_id@,
            version@,
            git_sha@,
        );
        let ghost ev = spec_mixpanel_event(*event, token@, *time_ms, device_id@, version@, git_sha@);
        array.element(&mut writer);
        match event.write_mixpanel_event(&mut writer, token, *time_ms, device_id, version, git_sha) {
            Ok(()) => {},
            Err(e) => {
                assert(!counts_fit(events@[i as int].1));
                return Err(e);
            },
        }
        proof {
            assert(spec_mixpanel_events(
                events@.take(i + 1),
                token@,
                device_id@,
                version@,
                git_sha@,
            ) =~= prev.push(ev));
            lemma_elems_text_push(prev, ev);
            assert(all_counts_fit(events@.take(i + 1))) by {
                assert forall|j: int| 0 <= j < i + 1 implies counts_fit(
                    #[trigger] events@.take(i + 1)[j].1,
                ) by {
                    if j < i {
                        assert(events@.take(i + 1)[j] == events@.take(i as int)[j]);
                    }
                }
            }
        }
        i = i + 1;
    }
    let _ = array.finish(&mut writer);
    assert(events@.take(i as int) =~= events@);
    assert(writer.written() =~= value_text(
        JsonValue::Array(spec_mixpanel_events(events@, token@, device_id@, version@, git_sha@)),
    ));
    Ok(writer.into_inner())
}

// ---------------------------------------------------------------------------------------------
// Buffering of events
// ---------------------------------------------------------------------------------------------

/// Telemetry for tracking events: buffers events (with the time they happened, in seconds) while
/// a Mixpanel token is configured, until they are submitted
#[derive(Debug)]
pub struct Telemetry {
    mp_token: Option<String>,
    device_id: String,
    events: Vec<(u64, Event)>,
    last_flush: u64,
}

impl Telemetry {
    /// Mixpanel token, if telemetry is enabled
    pub closed spec fn token(&self) -> Option<Seq<char>> {
        match self.mp_token {
            Some(t) => Some(t@),
            None => None,
        }
    }

    /// Device id
    pub closed spec fn device(&self) -> Seq<char> {
        self.device_id@
    }

    /// Buffered events
    pub closed spec fn buffered(&self) -> Seq<(u64, Event)> {
        self.events@
    }

    /// Time of the last submission
    pub closed spec fn flushed_at(&self) -> u64 {
        self.last_flush
    }

    /// Create new telemetry; it is disabled without a Mixpanel token
    pub fn new(mp_token: Option<&str>, device_id: &str, now: u64) -> (r: Self)
        ensures
            r.token() == match mp_token {
                Some(t) => Some(t@),
                None => None::<Seq<char>>,
            },
            r.device() == device_id@,
            r.buffered() == Seq::<(u64, Event)>::empty(),
            r.flushed_at() == now,
    {
        let token = match mp_token {
            Some(t) => Some(String::from_str(t)),
            None => None,
        };
        Telemetry { mp_token: token, device_id: String::from_str(device_id), events: Vec::new(), last_flush: now }
    }

    /// Track event (only if telemetry is enabled)
    pub fn track(&mut self, event: Event, now: u64)
        ensures
            final(self).token() == old(self).token(),
            final(self).device() == old(self).device(),
            final(self).flushed_at() == old(self).flushed_at(),
            old(self).token() is Some ==> final(self).buffered() == old(self).buffered().push(
                (now, event),
            ),
            old(self).token() is None ==> final(self).buffered() == old(self).buffered(),
    {
        if self.mp_token.is_some() {
            self.events.push((now, event));
        }
    }

    /// Whether events should be submitted: the buffer has filled up, or time has run out with
    /// events waiting
    pub fn needs_flush(&self, now: u64) -> (r: bool)
        ensures
            r == ((now >= self.flushed_at() && now - self.flushed_at() >= MAX_BUFFER_DURATION
                && self.buffered().len() > 0) || self.buffered().len() >= MAX_BUFFER_EVENTS),
    {
        (now >= self.last_flush && now - self.last_flush >= MAX_BUFFER_DURATION
            && !self.events.is_empty()) || self.events.len() >= MAX_BUFFER_EVENTS
    }

    /// Buffered events, to submit
    pub fn events(&self) -> (r: &[(u64, Event)])
        ensures
            r@ == self.buffered(),
    {
        self.events.as_slice()
    }

    /// Record a successful submission: the buffer is emptied
    pub fn flushed(&mut self, now: u64)
        ensures
            final(self).token() == old(self).token(),
            final(self).device() == old(self).device(),
            final(self).buffered() == Seq::<(u64, Event)>::empty(),
            final(self).flushed_at() == now,
    {
        self.events.clear();
        self.last_flush = now;
    }
}

} // verus!
