//! The line parser: one raw text line to one whole record, or nothing.
//!
//! A line yields a record exactly when it tokenizes into the full fixed
//! field list and every constrained field passes: the request type is one
//! of the five known literals, the three processing times have the float
//! token shape, the status codes and the rule priority are decimals within
//! sixteen bits, the byte counts within sixty-four, and the quoted fields
//! that may not be empty are not. Anything else yields no record.

use vstd::prelude::*;
use crate::lex::{is_dec_token, is_float_token, dec_value, parse_dec, check_float};
use crate::tokenizer::{
    field_kinds,
    spec_tokens,
    token_shape,
    tokenize,
    lemma_tokens_shape,
    N_FIELDS,
};
use crate::record::{req_type_of, req_type_from_token, valid_record, AccessLogRecord, RecordV};

verus! {

/// Largest value an unsigned sixteen-bit status or priority field takes.
pub const U16_FIELD_MAX: u64 = 65535;

/// The constraints the typed fields put on the raw tokens of one line.
pub open spec fn tokens_ok(t: Seq<Seq<char>>) -> bool {
    &&& t.len() == N_FIELDS
    &&& req_type_of(t[0]) is Some
    &&& is_float_token(t[5])
    &&& is_float_token(t[6])
    &&& is_float_token(t[7])
    &&& is_dec_token(t[8], U16_FIELD_MAX as int)
    &&& is_dec_token(t[9], U16_FIELD_MAX as int)
    &&& is_dec_token(t[10], u64::MAX as int)
    &&& is_dec_token(t[11], u64::MAX as int)
    &&& t[12].len() > 0
    &&& t[17].len() > 0
    &&& t[18].len() > 0
    &&& t[19].len() > 0
    &&& is_dec_token(t[20], U16_FIELD_MAX as int)
    &&& t[22].len() > 0
    &&& t[23].len() > 0
    &&& t[24].len() > 0
}

/// The record the raw tokens of one line carry, under [`tokens_ok`].
pub open spec fn record_of_tokens(t: Seq<Seq<char>>) -> RecordV {
    RecordV {
        request_type: req_type_of(t[0])->Some_0,
        timestamp: t[1],
        elb: t[2],
        client: t[3],
        target: t[4],
        request_processing_time: t[5],
        target_processing_time: t[6],
        response_processing_time: t[7],
        elb_status_code: dec_value(t[8]) as u16,
        target_status_code: dec_value(t[9]) as u16,
        received_bytes: dec_value(t[10]) as u64,
        sent_bytes: dec_value(t[11]) as u64,
        request: t[12],
        user_agent: t[13],
        ssl_cipher: t[14],
        ssl_protocol: t[15],
        target_group_arn: t[16],
        trace_id: t[17],
        domain_name: t[18],
        chosen_cert_arn: t[19],
        matched_rule_priority: dec_value(t[20]) as u16,
        request_creation_time: t[21],
        actions_executed: t[22],
        redirect_url: t[23],
        error_reason: t[24],
    }
}

/// What one line means: a whole record on a full grammar match, nothing
/// otherwise.
pub open spec fn spec_parse_line(s: Seq<char>) -> Option<RecordV> {
    match spec_tokens(s, 0, field_kinds()) {
        None => None,
        Some(t) => if tokens_ok(t) {
            Some(record_of_tokens(t))
        } else {
            None
        },
    }
}

/// Parses one line, returning exactly what [`spec_parse_line`] names.
pub fn parse_line(line: &str) -> (r: Option<AccessLogRecord>)
    ensures
        match r {
            Some(rec) => spec_parse_line(line@) == Some(rec@),
            None => spec_parse_line(line@) is None,
        },
{
    let toks = match tokenize(line) {
        Some(t) => t,
        None => {
            return None;
        },
    };
    let ghost tv = toks@.map_values(|t: String| t@);
    proof {
        lemma_tokens_shape(line@, 0, field_kinds(), tv);
        assert(toks@.len() == tv.len());
    }
    let request_type = match req_type_from_token(toks[0].as_str()) {
        Some(t) => t,
        None => {
            return None;
        },
    };
    if !check_float(toks[5].as_str()) {
        return None;
    }
    if !check_float(toks[6].as_str()) {
        return None;
    }
    if !check_float(toks[7].as_str()) {
        return None;
    }
    let elb_status_code: u16 = match parse_dec(toks[8].as_str(), U16_FIELD_MAX) {
        Some(v) => v as u16,
        None => {
            return None;
        },
    };
    let target_status_code: u16 = match parse_dec(toks[9].as_str(), U16_FIELD_MAX) {
        Some(v) => v as u16,
        None => {
            return None;
        },
    };
    let received_bytes: u64 = match parse_dec(toks[10].as_str(), u64::MAX) {
        Some(v) => v,
        None => {
            return None;
        },
    };
    let sent_bytes: u64 = match parse_dec(toks[11].as_str(), u64::MAX) {
        Some(v) => v,
        None => {
            return None;
        },
    };
    let matched_rule_priority: u16 = match parse_dec(toks[20].as_str(), U16_FIELD_MAX) {
        Some(v) => v as u16,
        None => {
            return None;
        },
    };
    if toks[12].as_str().is_empty() {
        return None;
    }
    if toks[17].as_str().is_empty() {
        return None;
    }
    if toks[18].as_str().is_empty() {
        return None;
    }
    if toks[19].as_str().is_empty() {
        return None;
    }
    if toks[22].as_str().is_empty() {
        return None;
    }
    if toks[23].as_str().is_empty() {
        return None;
    }
    if toks[24].as_str().is_empty() {
        return None;
    }
    let rec = AccessLogRecord {
        request_type,
        timestamp: toks[1].clone(),
        elb: toks[2].clone(),
        client: toks[3].clone(),
        target: toks[4].clone(),
        request_processing_time: toks[5].clone(),
        target_processing_time: toks[6].clone(),
        response_processing_time: toks[7].clone(),
        elb_status_code,
        target_status_code,
        received_bytes,
        sent_bytes,
        request: toks[12].clone(),
        user_agent: toks[13].clone(),
        ssl_cipher: toks[14].clone(),
        ssl_protocol: toks[15].clone(),
        target_group_arn: toks[16].clone(),
        trace_id: toks[17].clone(),
        domain_name: toks[18].clone(),
        chosen_cert_arn: toks[19].clone(),
        matched_rule_priority,
        request_creation_time: toks[21].clone(),
        actions_executed: toks[22].clone(),
        redirect_url: toks[23].clone(),
        error_reason: toks[24].clone(),
    };
    proof {
        assert(tokens_ok(tv));
        assert(rec@ == record_of_tokens(tv));
    }
    Some(rec)
}

/// A line that tokenizes but carries a malformed value in a numeric
/// position yields no record.
pub proof fn lemma_malformed_numeric_yields_none(s: Seq<char>, t: Seq<Seq<char>>)
    requires
        spec_tokens(s, 0, field_kinds()) == Some(t),
        !{
            &&& is_float_token(t[5])
            &&& is_float_token(t[6])
            &&& is_float_token(t[7])
            &&& is_dec_token(t[8], U16_FIELD_MAX as int)
            &&& is_dec_token(t[9], U16_FIELD_MAX as int)
            &&& is_dec_token(t[10], u64::MAX as int)
            &&& is_dec_token(t[11], u64::MAX as int)
            &&& is_dec_token(t[20], U16_FIELD_MAX as int)
        },
    ensures
        spec_parse_line(s) is None,
{
}

/// A line whose request-type token is none of the five known literals
/// yields no record.
pub proof fn lemma_unknown_request_type_yields_none(s: Seq<char>, t: Seq<Seq<char>>)
    requires
        spec_tokens(s, 0, field_kinds()) == Some(t),
        req_type_of(t[0]) is None,
    ensures
        spec_parse_line(s) is None,
{
}

/// Every record a line parses to is well formed.
pub proof fn lemma_parse_line_valid(s: Seq<char>)
    requires
        spec_parse_line(s) is Some,
    ensures
        valid_record(spec_parse_line(s)->Some_0),
{
    let t = spec_tokens(s, 0, field_kinds())->Some_0;
    lemma_tokens_shape(s, 0, field_kinds(), t);
    let r = record_of_tokens(t);
    assert(token_shape(field_kinds()[1], t[1]));
    assert(token_shape(field_kinds()[2], t[2]));
    assert(token_shape(field_kinds()[3], t[3]));
    assert(token_shape(field_kinds()[4], t[4]));
    assert(token_shape(field_kinds()[12], t[12]));
    assert(token_shape(field_kinds()[13], t[13]));
    assert(token_shape(field_kinds()[14], t[14]));
    assert(token_shape(field_kinds()[15], t[15]));
    assert(token_shape(field_kinds()[16], t[16]));
    assert(token_shape(field_kinds()[17], t[17]));
    assert(token_shape(field_kinds()[18], t[18]));
    assert(token_shape(field_kinds()[19], t[19]));
    assert(token_shape(field_kinds()[21], t[21]));
    assert(token_shape(field_kinds()[22], t[22]));
    assert(token_shape(field_kinds()[23], t[23]));
    assert(token_shape(field_kinds()[24], t[24]));
}

} // verus!
