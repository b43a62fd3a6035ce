//! The application's activity log: a bounded record of what happened, with
//! counters of served requests and of errors, and the reading of the lines
//! that the sidecar logs.
use crate::json::{json_parse_view, json_text_member, parse_json, text_member};
use crate::sidecar::push_bounded;
use crate::text::{contains, has_infix, owned, same_text};
use vstd::prelude::*;
use vstd::string::*;

verus! {

/// The most entries that the log keeps; older ones give way.
pub const LOG_CAPACITY: usize = 1000;

#[derive(Debug)]
pub struct LogEntry {
    pub id: u64,
    /// Milliseconds since the Unix epoch.
    pub timestamp_ms: i64,
    pub level: String,
    pub message: String,
}

/// The successor in a sequence that wraps around at `u64::MAX`, as an
/// atomic `fetch_add(1)` does.
pub open spec fn next_count(x: u64) -> u64 {
    if x == u64::MAX {
        0
    } else {
        (x + 1) as u64
    }
}

fn bump(x: u64) -> (r: u64)
    ensures
        r == next_count(x),
{
    if x == u64::MAX {
        0
    } else {
        x + 1
    }
}

/// The log never holds more than its capacity, and its entries carry
/// consecutive ids, oldest first, the newest one just before the next id.
pub open spec fn log_shape(e: Seq<LogEntry>, next_id: u64) -> bool {
    &&& e.len() <= LOG_CAPACITY
    &&& forall|i: int| 0 <= i < e.len() - 1 ==> #[trigger] e[i + 1].id == next_count(e[i].id)
    &&& e.len() > 0 ==> next_count(e.last().id) == next_id
}

pub struct RuntimeLog {
    entries: Vec<LogEntry>,
    next_id: u64,
    requests: u64,
    errors: u64,
}

/// `e` was logged with these values.
pub open spec fn entry_is(e: LogEntry, id: u64, now_ms: i64, level: Seq<char>, message: Seq<char>) -> bool {
    e.id == id && e.timestamp_ms == now_ms && e.level@ == level && e.message@ == message
}

impl RuntimeLog {
    pub closed spec fn entries_view(&self) -> Seq<LogEntry> {
        self.entries@
    }

    /// The id that the next entry gets.
    pub closed spec fn next_id_view(&self) -> u64 {
        self.next_id
    }

    pub closed spec fn requests_view(&self) -> u64 {
        self.requests
    }

    pub closed spec fn errors_view(&self) -> u64 {
        self.errors
    }

    /// Every log keeps the shape that `log_shape` describes.
    #[verifier::type_invariant]
    spec fn well_formed(self) -> bool {
        log_shape(self.entries@, self.next_id)
    }

    /// An empty log whose first entry gets id 1.
    pub fn new() -> (r: Self)
        ensures
            log_shape(r.entries_view(), r.next_id_view()),
            r.entries_view().len() == 0,
            r.next_id_view() == 1,
            r.requests_view() == 0,
            r.errors_view() == 0,
    {
        RuntimeLog { entries: Vec::new(), next_id: 1, requests: 0, errors: 0 }
    }

    /// Records `message` at `level`, stamped `now_ms`. The oldest entry gives
    /// way when the log is full; an `ERROR` counts as an error.
    pub fn log(&mut self, level: &str, message: String, now_ms: i64)
        ensures
            log_shape(final(self).entries_view(), final(self).next_id_view()),
            final(self).entries_view().len() > 0,
            entry_is(
                final(self).entries_view().last(),
                old(self).next_id_view(),
                now_ms,
                level@,
                message@,
            ),
            final(self).entries_view().drop_last() == if old(self).entries_view().len()
                >= LOG_CAPACITY {
                old(self).entries_view().drop_first()
            } else {
                old(self).entries_view()
            },
            final(self).next_id_view() == next_count(old(self).next_id_view()),
            final(self).errors_view() == if level@ == "ERROR"@ {
                next_count(old(self).errors_view())
            } else {
                old(self).errors_view()
            },
            final(self).requests_view() == old(self).requests_view(),
    {
        proof {
            use_type_invariant(&*self);
        }
        let entry = LogEntry {
            id: self.next_id,
            timestamp_ms: now_ms,
            level: owned(level),
            message,
        };
        let next_id = bump(self.next_id);
        let errors = if same_text(level, "ERROR") {
            bump(self.errors)
        } else {
            self.errors
        };
        let mut entries: Vec<LogEntry> = Vec::new();
        std::mem::swap(&mut entries, &mut self.entries);
        let ghost before = entries@;
        assert(before == old(self).entries@);
        push_bounded(&mut entries, entry, LOG_CAPACITY);
        assert(entries@.drop_last() =~= if before.len() >= LOG_CAPACITY {
            before.drop_first()
        } else {
            before
        });
        proof {
            let e = entries@;
            assert forall|i: int| 0 <= i < e.len() - 1 implies #[trigger] e[i + 1].id == next_count(
                e[i].id,
            ) by {
                if i + 1 == e.len() - 1 {
                    assert(e[i] == before.last());
                } else if before.len() >= LOG_CAPACITY {
                    assert(e[i] == before[i + 1]);
                    assert(e[i + 1] == before[i + 2]);
                } else {
                    assert(e[i] == before[i]);
                    assert(e[i + 1] == before[i + 1]);
                }
            }
        }
        *self = RuntimeLog { entries, next_id, requests: self.requests, errors };
    }

    /// Records `message` at level `INFO`.
    pub fn info(&mut self, message: String, now_ms: i64)
        ensures
            log_shape(final(self).entries_view(), final(self).next_id_view()),
            final(self).entries_view().len() > 0,
            entry_is(
                final(self).entries_view().last(),
                old(self).next_id_view(),
                now_ms,
                "INFO"@,
                message@,
            ),
            final(self).next_id_view() == next_count(old(self).next_id_view()),
            final(self).errors_view() == old(self).errors_view(),
            final(self).requests_view() == old(self).requests_view(),
    {
        proof {
            reveal_strlit("INFO");
            reveal_strlit("ERROR");
            assert("INFO"@.len() != "ERROR"@.len());
        }
        self.log("INFO", message, now_ms);
    }

    /// Records `message` at level `ERROR`, counting it as an error.
    pub fn error(&mut self, message: String, now_ms: i64)
        ensures
            log_shape(final(self).entries_view(), final(self).next_id_view()),
            final(self).entries_view().len() > 0,
            entry_is(
                final(self).entries_view().last(),
                old(self).next_id_view(),
                now_ms,
                "ERROR"@,
                message@,
            ),
            final(self).next_id_view() == next_count(old(self).next_id_view()),
            final(self).errors_view() == next_count(old(self).errors_view()),
            final(self).requests_view() == old(self).requests_view(),
    {
        self.log("ERROR", message, now_ms);
    }

    /// The entries, oldest first.
    pub fn entries(&self) -> (r: &Vec<LogEntry>)
        ensures
            r@ == self.entries_view(),
            log_shape(r@, self.next_id_view()),
    {
        proof {
            use_type_invariant(self);
        }
        &self.entries
    }

    /// How many requests the sidecar has reported receiving.
    pub fn requests(&self) -> (r: u64)
        ensures
            r == self.requests_view(),
    {
        self.requests
    }

    /// How many errors have been logged.
    pub fn errors(&self) -> (r: u64)
        ensures
            r == self.errors_view(),
    {
        self.errors
    }

    /// Forgets the entries; ids and counters go on.
    pub fn clear(&mut self)
        ensures
            log_shape(final(self).entries_view(), final(self).next_id_view()),
            final(self).entries_view().len() == 0,
            final(self).next_id_view() == old(self).next_id_view(),
            final(self).requests_view() == old(self).requests_view(),
            final(self).errors_view() == old(self).errors_view(),
    {
        let mut emptied: Vec<LogEntry> = Vec::new();
        std::mem::swap(&mut emptied, &mut self.entries);
    }
}

// ---------------------------------------------------------------------------
// The sidecar's log lines
/// The string fields of a JSON log line that the log reads.
#[derive(Debug)]
pub struct UpstreamFields {
    pub event: Option<String>,
    pub model: Option<String>,
    pub message: Option<String>,
}

pub open spec fn opt_view(o: Option<String>) -> Option<Seq<char>> {
    match o {
        Some(s) => Some(s@),
        None => None,
    }
}

/// What a line of the sidecar's log holds where `serde_json` reads it as
/// JSON: its top-level `event`, `model` and `message` members, each where it
/// is a string.
pub open spec fn upstream_fields(line: Seq<char>) -> Option<
    (Option<Seq<char>>, Option<Seq<char>>, Option<Seq<char>>),
> {
    match json_parse_view(line) {
        Some(v) => Some((text_member(v, "event"@), text_member(v, "model"@), text_member(v, "message"@))),
        None => None,
    }
}

/// The string members of a JSON log line, where it is one.
pub fn parse_upstream_line(line: &str) -> (r: Option<UpstreamFields>)
    ensures
        r matches Some(f) ==> upstream_fields(line@) == Some(
            (opt_view(f.event), opt_view(f.model), opt_view(f.message)),
        ),
        r is None ==> upstream_fields(line@) is None,
{
    match parse_json(line) {
        Ok(v) => Some(
            UpstreamFields {
                event: json_text_member(&v, "event"),
                model: json_text_member(&v, "model"),
                message: json_text_member(&v, "message"),
            },
        ),
        Err(_) => None,
    }
}

/// An event whose name reports a failure.
pub open spec fn is_failure_event(e: Seq<char>) -> bool {
    has_infix(e, "error"@) || has_infix(e, "failed"@) || has_infix(e, "crashed"@)
}

pub open spec fn upstream_level(f: Option<(Option<Seq<char>>, Option<Seq<char>>, Option<Seq<char>>)>) -> Seq<
    char,
> {
    match f {
        Some((Some(e), _, _)) => if is_failure_event(e) {
            "ERROR"@
        } else {
            "INFO"@
        },
        _ => "INFO"@,
    }
}

pub open spec fn dotted(part: Option<Seq<char>>) -> Seq<char> {
    match part {
        Some(x) => " · "@ + x,
        None => Seq::empty(),
    }
}

/// How a sidecar line is shown: a JSON line as `event · model · message`
/// (its event defaulting to `upstream`, absent parts left out), any other
/// line as it is.
pub open spec fn upstream_message(
    line: Seq<char>,
    f: Option<(Option<Seq<char>>, Option<Seq<char>>, Option<Seq<char>>)>,
) -> Seq<char> {
    match f {
        Some((event, model, message)) => {
            let name = match event {
                Some(e) => e,
                None => "upstream"@,
            };
            name + dotted(model) + dotted(message)
        },
        None => line,
    }
}

/// The line announces a request that the proxy received.
pub open spec fn counts_request(f: Option<(Option<Seq<char>>, Option<Seq<char>>, Option<Seq<char>>)>) -> bool {
    match f {
        Some((Some(e), _, _)) => e == "request.received"@,
        _ => false,
    }
}

/// A sidecar line is logged as an error exactly when it is JSON whose
/// string `event` member contains `error`, `failed` or `crashed`; every other
/// line, JSON or not, is logged as information. A request is counted exactly
/// when the event is `request.received`.
pub proof fn lemma_upstream_level(line: Seq<char>)
    ensures
        upstream_level(upstream_fields(line)) == "ERROR"@ <==> (json_parse_view(line) matches Some(v)
            && text_member(v, "event"@) matches Some(e) && (has_infix(e, "error"@) || has_infix(
            e,
            "failed"@,
        ) || has_infix(e, "crashed"@))),
        upstream_level(upstream_fields(line)) == "ERROR"@ || upstream_level(upstream_fields(line))
            == "INFO"@,
        counts_request(upstream_fields(line)) <==> (json_parse_view(line) matches Some(v)
            && text_member(v, "event"@) == Some("request.received"@)),
{
    reveal_strlit("ERROR");
    reveal_strlit("INFO");
    assert("ERROR"@.len() != "INFO"@.len());
}

/// `base` followed by ` · part`, where there is a part.
fn append_dotted(base: &mut String, part: &Option<String>)
    ensures
        final(base)@ == old(base)@ + dotted(opt_view(*part)),
{
    match part {
        Some(x) => {
            base.append(" · ");
            base.append(x.as_str());
        },
        None => {
            assert(old(base)@ + Seq::<char>::empty() =~= old(base)@);
        },
    }
}

impl RuntimeLog {
    /// Records a line that the sidecar wrote, counting announced requests and
    /// logging failures as errors.
    pub fn log_upstream(&mut self, line: String, now_ms: i64)
        ensures
            log_shape(final(self).entries_view(), final(self).next_id_view()),
            final(self).entries_view().len() > 0,
            entry_is(
                final(self).entries_view().last(),
                old(self).next_id_view(),
                now_ms,
                upstream_level(upstream_fields(line@)),
                upstream_message(line@, upstream_fields(line@)),
            ),
            final(self).next_id_view() == next_count(old(self).next_id_view()),
            final(self).requests_view() == if counts_request(upstream_fields(line@)) {
                next_count(old(self).requests_view())
            } else {
                old(self).requests_view()
            },
            final(self).errors_view() == if upstream_level(upstream_fields(line@))
                == "ERROR"@ {
                next_count(old(self).errors_view())
            } else {
                old(self).errors_view()
            },
    {
        proof {
            use_type_invariant(&*self);
        }
        let parsed = parse_upstream_line(line.as_str());
        let ghost f = upstream_fields(line@);
        match &parsed {
            Some(fields) => {
                match &fields.event {
                    Some(e) => {
                        if same_text(e.as_str(), "request.received") {
                            self.requests = bump(self.requests);
                        }
                    },
                    None => {},
                }
            },
            None => {},
        }
        let failure = match &parsed {
            Some(fields) => match &fields.event {
                Some(e) => contains(e.as_str(), "error") || contains(e.as_str(), "failed")
                    || contains(e.as_str(), "crashed"),
                None => false,
            },
            None => false,
        };
        let level = if failure {
            "ERROR"
        } else {
            "INFO"
        };
        let message = match &parsed {
            Some(fields) => {
                let mut text = match &fields.event {
                    Some(e) => e.clone(),
                    None => owned("upstream"),
                };
                append_dotted(&mut text, &fields.model);
                append_dotted(&mut text, &fields.message);
                text
            },
            None => line,
        };
        self.log(level, message, now_ms);
    }
}

} // verus!
