//! The events a bucket carries and the shapes they take on the wire.

use crate::fields::FieldMap;
use crate::text::{decimal_text, push_decimal};
use vstd::prelude::*;
use vstd::string::StringExecFns;

verus! {

/// One parsed field of a log line: its text and the colour its key is shown in.
#[derive(Debug)]
pub struct FieldData {
    pub value: String,
    pub color: String,
}

/// What a `FieldData` holds, as plain sequences.
pub struct FieldDataView {
    pub value: Seq<char>,
    pub color: Seq<char>,
}

impl View for FieldData {
    type V = FieldDataView;

    open spec fn view(&self) -> FieldDataView {
        FieldDataView { value: self.value@, color: self.color@ }
    }
}

impl Clone for FieldData {
    fn clone(&self) -> (copy: Self)
        ensures
            copy == *self,
    {
        FieldData { value: self.value.clone(), color: self.color.clone() }
    }
}

/// Counters and identities reported to viewers of a bucket.
#[derive(Debug)]
pub struct StatsEvent {
    pub client_count: usize,
    pub conn_count: usize,
    pub clients: Vec<String>,
}

/// Tells viewers whether the bucket has been suspended.
#[derive(Debug, Clone, Copy, PartialEq, Eq, Structural)]
pub struct SuspensionEvent {
    pub suspended: bool,
}

/// One message as it is handed to the transport: an event name and its payload.
#[derive(Debug)]
pub struct SseEvent {
    pub event_type: String,
    pub data: String,
}

/// What an `SseEvent` holds, as plain sequences.
pub struct SseEventView {
    pub event_type: Seq<char>,
    pub data: Seq<char>,
}

impl View for SseEvent {
    type V = SseEventView;

    open spec fn view(&self) -> SseEventView {
        SseEventView { event_type: self.event_type@, data: self.data@ }
    }
}

impl Clone for SseEvent {
    fn clone(&self) -> (copy: Self)
        ensures
            copy == *self,
    {
        SseEvent { event_type: self.event_type.clone(), data: self.data.clone() }
    }
}

/// The events of a list, each as plain sequences.
pub open spec fn events_view(events: Seq<SseEvent>) -> Seq<SseEventView> {
    events.map_values(|e: SseEvent| e@)
}

/// The texts of a list, each as a sequence of characters.
pub open spec fn texts_view(texts: Seq<String>) -> Seq<Seq<char>> {
    texts.map_values(|t: String| t@)
}

/// Copies a list of events.
pub fn copy_events(events: &Vec<SseEvent>) -> (copy: Vec<SseEvent>)
    ensures
        copy@ == events@,
{
    let mut copy: Vec<SseEvent> = Vec::new();
    let mut i: usize = 0;
    while i < events.len()
        invariant
            i <= events.len(),
            copy@ == events@.take(i as int),
        decreases events.len() - i,
    {
        copy.push(events[i].clone());
        assert(events@.take(i + 1) =~= events@.take(i as int).push(events@[i as int]));
        i += 1;
    }
    assert(events@.take(i as int) =~= events@);
    copy
}

/// Copies a list of texts.
pub fn copy_texts(texts: &Vec<String>) -> (copy: Vec<String>)
    ensures
        copy@ == texts@,
{
    let mut copy: Vec<String> = Vec::new();
    let mut i: usize = 0;
    while i < texts.len()
        invariant
            i <= texts.len(),
            copy@ == texts@.take(i as int),
        decreases texts.len() - i,
    {
        copy.push(texts[i].clone());
        assert(texts@.take(i + 1) =~= texts@.take(i as int).push(texts@[i as int]));
        i += 1;
    }
    assert(texts@.take(i as int) =~= texts@);
    copy
}

/// One log line with what the parsers made of it.
pub struct LogEvent {
    /// When the line was taken in, in milliseconds since the Unix epoch.
    pub time: i64,
    /// The line as it was submitted.
    pub raw: String,
    /// The fields that the line gave.
    pub fields: FieldMap<FieldData>,
    /// The name of the syntax that matched, if one did.
    pub parser: Option<String>,
}

/// `text` as a JSON string: in double quotes, escaped as `serde_json` escapes.
pub uninterp spec fn json_string_of(text: Seq<char>) -> Seq<char>;

/// Calls `serde_json::to_string` on a string slice, which writes the text in
/// double quotes with JSON escapes. The result depends on the text alone;
/// for a string slice the call does not fail.
#[verifier::external_body]
fn json_quote(text: &str) -> (quoted: String)
    ensures
        quoted@ == json_string_of(text@),
{
    serde_json::to_string(text).unwrap_or_default()
}

/// The texts as JSON strings with commas between them.
pub open spec fn json_string_list(texts: Seq<Seq<char>>) -> Seq<char>
    decreases texts.len(),
{
    if texts.len() == 0 {
        Seq::empty()
    } else if texts.len() == 1 {
        json_string_of(texts[0])
    } else {
        json_string_list(texts.drop_last()) + ","@ + json_string_of(texts.last())
    }
}

/// The payload of a stats event: a JSON object with the two counters and
/// the list of identities, without white space.
pub open spec fn stats_json(client_count: nat, conn_count: nat, clients: Seq<Seq<char>>) -> Seq<
    char,
> {
    "{\"clientCount\":"@ + decimal_text(client_count) + ",\"connCount\":"@ + decimal_text(
        conn_count,
    ) + ",\"clients\":["@ + json_string_list(clients) + "]}"@
}

/// The payload of a suspension event.
pub open spec fn suspension_json(suspended: bool) -> Seq<char> {
    if suspended {
        "{\"suspended\":true}"@
    } else {
        "{\"suspended\":false}"@
    }
}

/// The event that carries the stats report `stats`.
pub open spec fn stats_event_view(stats: StatsEvent) -> SseEventView {
    SseEventView {
        event_type: "stats"@,
        data: stats_json(
            stats.client_count as nat,
            stats.conn_count as nat,
            texts_view(stats.clients@),
        ),
    }
}

/// The event that tells whether the bucket is suspended.
pub open spec fn suspension_event_view(suspended: bool) -> SseEventView {
    SseEventView { event_type: "suspension"@, data: suspension_json(suspended) }
}

impl StatsEvent {
    /// The event as the JSON object that viewers receive.
    pub fn to_json(&self) -> (json: String)
        ensures
            json@ == stats_json(
                self.client_count as nat,
                self.conn_count as nat,
                texts_view(self.clients@),
            ),
    {
        let mut json = "{\"clientCount\":".to_owned();
        push_decimal(&mut json, self.client_count as u64);
        json.append(",\"connCount\":");
        push_decimal(&mut json, self.conn_count as u64);
        json.append(",\"clients\":[");
        let ghost head = json@;
        let ghost all = texts_view(self.clients@);
        let mut i: usize = 0;
        while i < self.clients.len()
            invariant
                i <= self.clients.len(),
                all == texts_view(self.clients@),
                json@ == head + json_string_list(all.take(i as int)),
            decreases self.clients.len() - i,
        {
            if i > 0 {
                json.append(",");
            }
            let quoted = json_quote(self.clients[i].as_str());
            json.append(quoted.as_str());
            proof {
                let upto = all.take(i + 1);
                assert(upto.drop_last() =~= all.take(i as int));
                assert(upto.last() == self.clients[i as int]@);
                assert(json@ =~= head + json_string_list(upto));
            }
            i += 1;
        }
        json.append("]}");
        proof {
            assert(all.take(i as int) =~= all);
            assert(json@ =~= stats_json(self.client_count as nat, self.conn_count as nat, all));
        }
        json
    }
}

impl SuspensionEvent {
    /// The event as the JSON object that viewers receive.
    pub fn to_json(&self) -> (json: String)
        ensures
            json@ == suspension_json(self.suspended),
    {
        if self.suspended {
            "{\"suspended\":true}".to_owned()
        } else {
            "{\"suspended\":false}".to_owned()
        }
    }
}

impl SseEvent {
    /// The event that carries a log line's payload.
    pub fn log(data: String) -> (event: SseEvent)
        ensures
            event@ == (SseEventView { event_type: "log"@, data: data@ }),
    {
        SseEvent { event_type: "log".to_owned(), data }
    }

    /// The event that carries a stats report.
    pub fn stats(stats: &StatsEvent) -> (event: SseEvent)
        ensures
            event@ == stats_event_view(*stats),
    {
        SseEvent { event_type: "stats".to_owned(), data: stats.to_json() }
    }

    /// The event that tells whether the bucket is suspended.
    pub fn suspension(suspended: bool) -> (event: SseEvent)
        ensures
            event@ == suspension_event_view(suspended),
    {
        SseEvent {
            event_type: "suspension".to_owned(),
            data: (SuspensionEvent { suspended }).to_json(),
        }
    }
}

} // verus!
