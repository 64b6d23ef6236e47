//! The structured access-log record and its well-formedness.
//!
//! A record is produced whole from one line or not at all. Timestamps stay
//! opaque text; processing times stay their validated decimal text, so the
//! sentinel `-1` rides through unchanged; status codes, byte counts and the
//! rule priority are unsigned integers.

use vstd::prelude::*;
use crate::lex::{is_float_token, str_eq};

verus! {

/// The request scheme of one access-log line, written in lowercase on the
/// wire.
#[derive(Clone, Copy, Debug, PartialEq, Eq, Structural)]
pub enum ReqType {
    Http,
    Https,
    H2,
    Ws,
    Wss,
}

impl Default for ReqType {
    fn default() -> (r: Self)
        ensures
            r == ReqType::Http,
    {
        ReqType::Http
    }
}

/// The lowercase wire token of each request type.
pub open spec fn type_token(t: ReqType) -> Seq<char> {
    match t {
        ReqType::Http => seq!['h', 't', 't', 'p'],
        ReqType::Https => seq!['h', 't', 't', 'p', 's'],
        ReqType::H2 => seq!['h', '2'],
        ReqType::Ws => seq!['w', 's'],
        ReqType::Wss => seq!['w', 's', 's'],
    }
}

/// The request type a wire token names; case-sensitive, the grammar admits
/// only the lowercase literals.
pub open spec fn req_type_of(s: Seq<char>) -> Option<ReqType> {
    if s == type_token(ReqType::Http) {
        Some(ReqType::Http)
    } else if s == type_token(ReqType::Https) {
        Some(ReqType::Https)
    } else if s == type_token(ReqType::H2) {
        Some(ReqType::H2)
    } else if s == type_token(ReqType::Ws) {
        Some(ReqType::Ws)
    } else if s == type_token(ReqType::Wss) {
        Some(ReqType::Wss)
    } else {
        None
    }
}

/// Each request type is read back from its own token.
pub proof fn lemma_req_type_roundtrip(t: ReqType)
    ensures
        req_type_of(type_token(t)) == Some(t),
{
    assert(type_token(ReqType::Http).len() == 4);
    assert(type_token(ReqType::Https).len() == 5);
    assert(type_token(ReqType::H2).len() == 2);
    assert(type_token(ReqType::Ws).len() == 2);
    assert(type_token(ReqType::Wss).len() == 3);
    assert(type_token(ReqType::Ws)[0] == 'w');
    assert(type_token(ReqType::H2)[0] == 'h');
}

/// Executable form of [`req_type_of`].
pub fn req_type_from_token(tok: &str) -> (r: Option<ReqType>)
    ensures
        r == req_type_of(tok@),
{
    proof {
        reveal_strlit("http");
        reveal_strlit("https");
        reveal_strlit("h2");
        reveal_strlit("ws");
        reveal_strlit("wss");
        assert("http"@ =~= type_token(ReqType::Http));
        assert("https"@ =~= type_token(ReqType::Https));
        assert("h2"@ =~= type_token(ReqType::H2));
        assert("ws"@ =~= type_token(ReqType::Ws));
        assert("wss"@ =~= type_token(ReqType::Wss));
    }
    if str_eq(tok, "http") {
        Some(ReqType::Http)
    } else if str_eq(tok, "https") {
        Some(ReqType::Https)
    } else if str_eq(tok, "h2") {
        Some(ReqType::H2)
    } else if str_eq(tok, "ws") {
        Some(ReqType::Ws)
    } else if str_eq(tok, "wss") {
        Some(ReqType::Wss)
    } else {
        None
    }
}

/// The wire token of a request type, as text.
pub fn type_token_str(t: ReqType) -> (r: &'static str)
    ensures
        r@ == type_token(t),
{
    proof {
        reveal_strlit("http");
        reveal_strlit("https");
        reveal_strlit("h2");
        reveal_strlit("ws");
        reveal_strlit("wss");
        assert("http"@ =~= type_token(ReqType::Http));
        assert("https"@ =~= type_token(ReqType::Https));
        assert("h2"@ =~= type_token(ReqType::H2));
        assert("ws"@ =~= type_token(ReqType::Ws));
        assert("wss"@ =~= type_token(ReqType::Wss));
    }
    match t {
        ReqType::Http => "http",
        ReqType::Https => "https",
        ReqType::H2 => "h2",
        ReqType::Ws => "ws",
        ReqType::Wss => "wss",
    }
}

/// One parsed access-log line; every field populated, in wire order.
#[derive(Debug, Clone, PartialEq)]
pub struct AccessLogRecord {
    pub request_type: ReqType,
    pub timestamp: String,
    pub elb: String,
    pub client: String,
    pub target: String,
    pub request_processing_time: String,
    pub target_processing_time: String,
    pub response_processing_time: String,
    pub elb_status_code: u16,
    pub target_status_code: u16,
    pub received_bytes: u64,
    pub sent_bytes: u64,
    pub request: String,
    pub user_agent: String,
    pub ssl_cipher: String,
    pub ssl_protocol: String,
    pub target_group_arn: String,
    pub trace_id: String,
    pub domain_name: String,
    pub chosen_cert_arn: String,
    pub matched_rule_priority: u16,
    pub request_creation_time: String,
    pub actions_executed: String,
    pub redirect_url: String,
    pub error_reason: String,
}

/// Ghost image of an [`AccessLogRecord`]: text fields as character
/// sequences.
pub ghost struct RecordV {
    pub request_type: ReqType,
    pub timestamp: Seq<char>,
    pub elb: Seq<char>,
    pub client: Seq<char>,
    pub target: Seq<char>,
    pub request_processing_time: Seq<char>,
    pub target_processing_time: Seq<char>,
    pub response_processing_time: Seq<char>,
    pub elb_status_code: u16,
    pub target_status_code: u16,
    pub received_bytes: u64,
    pub sent_bytes: u64,
    pub request: Seq<char>,
    pub user_agent: Seq<char>,
    pub ssl_cipher: Seq<char>,
    pub ssl_protocol: Seq<char>,
    pub target_group_arn: Seq<char>,
    pub trace_id: Seq<char>,
    pub domain_name: Seq<char>,
    pub chosen_cert_arn: Seq<char>,
    pub matched_rule_priority: u16,
    pub request_creation_time: Seq<char>,
    pub actions_executed: Seq<char>,
    pub redirect_url: Seq<char>,
    pub error_reason: Seq<char>,
}

impl View for AccessLogRecord {
    type V = RecordV;

    open spec fn view(&self) -> RecordV {
        RecordV {
            request_type: self.request_type,
            timestamp: self.timestamp@,
            elb: self.elb@,
            client: self.client@,
            target: self.target@,
            request_processing_time: self.request_processing_time@,
            target_processing_time: self.target_processing_time@,
            response_processing_time: self.response_processing_time@,
            elb_status_code: self.elb_status_code,
            target_status_code: self.target_status_code,
            received_bytes: self.received_bytes,
            sent_bytes: self.sent_bytes,
            request: self.request@,
            user_agent: self.user_agent@,
            ssl_cipher: self.ssl_cipher@,
            ssl_protocol: self.ssl_protocol@,
            target_group_arn: self.target_group_arn@,
            trace_id: self.trace_id@,
            domain_name: self.domain_name@,
            chosen_cert_arn: self.chosen_cert_arn@,
            matched_rule_priority: self.matched_rule_priority,
            request_creation_time: self.request_creation_time@,
            actions_executed: self.actions_executed@,
            redirect_url: self.redirect_url@,
            error_reason: self.error_reason@,
        }
    }
}

/// A nonempty text with no space: what a bare field can carry.
pub open spec fn bare_text(t: Seq<char>) -> bool {
    t.len() > 0 && (forall|m: int| 0 <= m < t.len() ==> t[m] != ' ')
}

/// A text with no double quote: what a quoted field can carry.
pub open spec fn quoted_text(t: Seq<char>) -> bool {
    forall|m: int| 0 <= m < t.len() ==> t[m] != '"'
}

/// The record values the grammar can produce: text fields shaped so that
/// writing the record back yields a line the grammar reads to the same
/// record.
pub open spec fn valid_record(r: RecordV) -> bool {
    &&& bare_text(r.timestamp)
    &&& bare_text(r.elb)
    &&& bare_text(r.client)
    &&& bare_text(r.target)
    &&& is_float_token(r.request_processing_time)
    &&& is_float_token(r.target_processing_time)
    &&& is_float_token(r.response_processing_time)
    &&& quoted_text(r.request)
    &&& r.request.len() > 0
    &&& quoted_text(r.user_agent)
    &&& bare_text(r.ssl_cipher)
    &&& bare_text(r.ssl_protocol)
    &&& bare_text(r.target_group_arn)
    &&& quoted_text(r.trace_id)
    &&& r.trace_id.len() > 0
    &&& quoted_text(r.domain_name)
    &&& r.domain_name.len() > 0
    &&& quoted_text(r.chosen_cert_arn)
    &&& r.chosen_cert_arn.len() > 0
    &&& bare_text(r.request_creation_time)
    &&& quoted_text(r.actions_executed)
    &&& r.actions_executed.len() > 0
    &&& quoted_text(r.redirect_url)
    &&& r.redirect_url.len() > 0
    &&& quoted_text(r.error_reason)
    &&& r.error_reason.len() > 0
}

} // verus!
