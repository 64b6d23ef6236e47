//! Writing a record back to line form, and the round-trip law: a line the
//! grammar reads to a record is read to the same record again after the
//! record is written back out.

use vstd::prelude::*;
use crate::lex::{
    dec_str,
    is_digit,
    is_float_token,
    lemma_dec_str_digits,
    lemma_dec_value_dec_str,
    lemma_find_from_is,
    lemma_float_token_chars,
    render_dec,
};
use crate::tokenizer::{
    field_kinds,
    kind_at,
    spec_take_bare,
    spec_take_quoted,
    spec_tokens,
    token_shape,
    FieldKind,
    N_FIELDS,
};
use crate::record::{
    lemma_req_type_roundtrip,
    req_type_of,
    type_token,
    type_token_str,
    valid_record,
    AccessLogRecord,
    RecordV,
    ReqType,
};
use crate::parser::{lemma_parse_line_valid, record_of_tokens, spec_parse_line, tokens_ok};

verus! {

/// The raw tokens a record writes: integers canonically, text verbatim,
/// without the quotes of quoted fields.
pub open spec fn tokens_of_record(r: RecordV) -> Seq<Seq<char>> {
    seq![
        type_token(r.request_type),
        r.timestamp,
        r.elb,
        r.client,
        r.target,
        r.request_processing_time,
        r.target_processing_time,
        r.response_processing_time,
        dec_str(r.elb_status_code as nat),
        dec_str(r.target_status_code as nat),
        dec_str(r.received_bytes as nat),
        dec_str(r.sent_bytes as nat),
        r.request,
        r.user_agent,
        r.ssl_cipher,
        r.ssl_protocol,
        r.target_group_arn,
        r.trace_id,
        r.domain_name,
        r.chosen_cert_arn,
        dec_str(r.matched_rule_priority as nat),
        r.request_creation_time,
        r.actions_executed,
        r.redirect_url,
        r.error_reason,
    ]
}

/// A token on the wire: bare fields stand alone, quoted fields are wrapped
/// in double quotes.
pub open spec fn wrap_token(k: FieldKind, t: Seq<char>) -> Seq<char> {
    match k {
        FieldKind::Bare => t,
        FieldKind::Quoted => seq!['"'] + t + seq!['"'],
    }
}

/// The wire text of a token list under a kind list, one space between
/// fields.
pub open spec fn spec_join(toks: Seq<Seq<char>>, ks: Seq<FieldKind>) -> Seq<char>
    decreases ks.len(),
{
    if ks.len() == 0 {
        Seq::empty()
    } else if ks.len() == 1 {
        wrap_token(ks[0], toks[0])
    } else {
        wrap_token(ks[0], toks[0]) + seq![' '] + spec_join(toks.drop_first(), ks.drop_first())
    }
}

/// The full line a record writes.
pub open spec fn spec_render_line(r: RecordV) -> Seq<char> {
    spec_join(tokens_of_record(r), field_kinds())
}

/// Tokenizing the joined text of well-shaped tokens gives those tokens
/// back.
pub proof fn lemma_tokenize_join(s: Seq<char>, i: int, toks: Seq<Seq<char>>, ks: Seq<FieldKind>)
    requires
        toks.len() == ks.len(),
        forall|p: int| 0 <= p < ks.len() ==> token_shape(ks[p], #[trigger] toks[p]),
        0 <= i <= s.len(),
        s.skip(i) == spec_join(toks, ks),
    ensures
        spec_tokens(s, i, ks) == Some(toks),
    decreases ks.len(),
{
    if ks.len() == 0 {
        assert(s.skip(i).len() == 0);
        assert(i == s.len());
        assert(toks =~= Seq::<Seq<char>>::empty());
    } else {
        let tok = toks[0];
        assert(token_shape(ks[0], tok));
        let last = ks.len() == 1;
        let rest_join = spec_join(toks.drop_first(), ks.drop_first());
        match ks[0] {
            FieldKind::Bare => {
                if last {
                    assert(s.skip(i) == tok);
                    assert(s.len() == i + tok.len());
                    assert forall|k: int| i <= k < s.len() implies s[k] != ' ' by {
                        assert(s.skip(i)[k - i] == s[k]);
                    }
                    lemma_find_from_is(s, i, ' ', s.len() as int);
                    assert(s.subrange(i, s.len() as int) =~= tok);
                    assert(spec_take_bare(s, i) == Some((tok, s.len() as int)));
                    assert(spec_tokens(s, s.len() as int, ks.drop_first()) == Some(
                        Seq::<Seq<char>>::empty(),
                    ));
                    assert(seq![tok] + Seq::<Seq<char>>::empty() =~= toks);
                } else {
                    assert(s.skip(i) == tok + seq![' '] + rest_join);
                    assert(s.len() - i == tok.len() + 1 + rest_join.len());
                    let j = i + tok.len() as int;
                    assert forall|k: int| i <= k < j implies s[k] != ' ' by {
                        assert(s.skip(i)[k - i] == s[k]);
                        assert(s.skip(i)[k - i] == tok[k - i]);
                    }
                    assert(s.skip(i)[tok.len() as int] == ' ');
                    assert(s[j] == ' ');
                    lemma_find_from_is(s, i, ' ', j);
                    assert(s.subrange(i, j) =~= tok);
                    assert(spec_take_bare(s, i) == Some((tok, j)));
                    assert(s.skip(j + 1) =~= rest_join) by {
                        assert forall|m: int| 0 <= m < s.len() - j - 1 implies s.skip(j + 1)[m]
                            == rest_join[m] by {
                            assert(s.skip(j + 1)[m] == s[j + 1 + m]);
                            assert(s.skip(i)[j + 1 + m - i] == s[j + 1 + m]);
                            assert(s.skip(i)[tok.len() + 1 + m] == rest_join[m]);
                        }
                    }
                    assert forall|p: int| 0 <= p < ks.drop_first().len() implies token_shape(
                        ks.drop_first()[p],
                        #[trigger] toks.drop_first()[p],
                    ) by {
                        assert(ks.drop_first()[p] == ks[p + 1]);
                        assert(toks.drop_first()[p] == toks[p + 1]);
                    }
                    lemma_tokenize_join(s, j + 1, toks.drop_first(), ks.drop_first());
                    assert(seq![tok] + toks.drop_first() =~= toks);
                }
            },
            FieldKind::Quoted => {
                let w = seq!['"'] + tok + seq!['"'];
                assert(w.len() == tok.len() + 2);
                if last {
                    assert(s.skip(i) == w);
                } else {
                    assert(s.skip(i) == w + seq![' '] + rest_join);
                }
                assert(s.skip(i)[0] == '"');
                assert(s[i] == '"');
                let q = i + 1 + tok.len() as int;
                assert forall|k: int| i + 1 <= k < q implies s[k] != '"' by {
                    assert(s.skip(i)[k - i] == s[k]);
                    assert(w[k - i] == tok[k - i - 1]);
                    if last {
                        assert(s.skip(i)[k - i] == w[k - i]);
                    } else {
                        assert(s.skip(i)[k - i] == w[k - i]);
                    }
                }
                assert(s.skip(i)[q - i] == w[q - i]);
                assert(w[tok.len() as int + 1] == '"');
                assert(s[q] == '"');
                assert(q < s.len());
                lemma_find_from_is(s, i + 1, '"', q);
                assert(s.subrange(i + 1, q) =~= tok) by {
                    assert forall|m: int| 0 <= m < tok.len() implies s.subrange(i + 1, q)[m]
                        == tok[m] by {
                        assert(s.subrange(i + 1, q)[m] == s[i + 1 + m]);
                        assert(s.skip(i)[1 + m] == s[i + 1 + m]);
                        assert(w[1 + m] == tok[m]);
                    }
                }
                assert(spec_take_quoted(s, i) == Some((tok, q + 1)));
                let j = q + 1;
                if last {
                    assert(s.len() == i + w.len());
                    assert(j == s.len());
                    assert(spec_tokens(s, j, ks.drop_first()) == Some(Seq::<Seq<char>>::empty()));
                    assert(seq![tok] + Seq::<Seq<char>>::empty() =~= toks);
                } else {
                    assert(s.len() - i == w.len() + 1 + rest_join.len());
                    assert(s.skip(i)[w.len() as int] == ' ');
                    assert(s[i + w.len()] == ' ');
                    assert(j == i + w.len());
                    assert(j < s.len() && s[j] == ' ');
                    assert(s.skip(j + 1) =~= rest_join) by {
                        assert forall|m: int| 0 <= m < s.len() - j - 1 implies s.skip(j + 1)[m]
                            == rest_join[m] by {
                            assert(s.skip(j + 1)[m] == s[j + 1 + m]);
                            assert(s.skip(i)[j + 1 + m - i] == s[j + 1 + m]);
                            assert(s.skip(i)[w.len() + 1 + m] == rest_join[m]);
                        }
                    }
                    assert forall|p: int| 0 <= p < ks.drop_first().len() implies token_shape(
                        ks.drop_first()[p],
                        #[trigger] toks.drop_first()[p],
                    ) by {
                        assert(ks.drop_first()[p] == ks[p + 1]);
                        assert(toks.drop_first()[p] == toks[p + 1]);
                    }
                    lemma_tokenize_join(s, j + 1, toks.drop_first(), ks.drop_first());
                    assert(seq![tok] + toks.drop_first() =~= toks);
                }
            },
        }
    }
}

/// Each request-type token is a well-shaped bare token.
pub proof fn lemma_type_token_shape(t: ReqType)
    ensures
        token_shape(FieldKind::Bare, type_token(t)),
{
    let tok = type_token(t);
    match t {
        ReqType::Http => {
            assert forall|m: int| 0 <= m < tok.len() implies tok[m] != ' ' by {
                assert(tok[0] == 'h');
                assert(tok[1] == 't');
                assert(tok[2] == 't');
                assert(tok[3] == 'p');
            }
        },
        ReqType::Https => {
            assert forall|m: int| 0 <= m < tok.len() implies tok[m] != ' ' by {
                assert(tok[0] == 'h');
                assert(tok[1] == 't');
                assert(tok[2] == 't');
                assert(tok[3] == 'p');
                assert(tok[4] == 's');
            }
        },
        ReqType::H2 => {
            assert forall|m: int| 0 <= m < tok.len() implies tok[m] != ' ' by {
                assert(tok[0] == 'h');
                assert(tok[1] == '2');
            }
        },
        ReqType::Ws => {
            assert forall|m: int| 0 <= m < tok.len() implies tok[m] != ' ' by {
                assert(tok[0] == 'w');
                assert(tok[1] == 's');
            }
        },
        ReqType::Wss => {
            assert forall|m: int| 0 <= m < tok.len() implies tok[m] != ' ' by {
                assert(tok[0] == 'w');
                assert(tok[1] == 's');
                assert(tok[2] == 's');
            }
        },
    }
}

/// Canonical decimal text is a well-shaped bare token.
pub proof fn lemma_dec_str_shape(n: nat)
    ensures
        token_shape(FieldKind::Bare, dec_str(n)),
{
    lemma_dec_str_digits(n);
    assert forall|m: int| 0 <= m < dec_str(n).len() implies dec_str(n)[m] != ' ' by {
        assert(is_digit(dec_str(n)[m]));
    }
}

/// A float token is a well-shaped bare token.
pub proof fn lemma_float_token_shape(t: Seq<char>)
    requires
        is_float_token(t),
    ensures
        token_shape(FieldKind::Bare, t),
{
    lemma_float_token_chars(t);
}

/// The tokens a well-formed record writes are well shaped, satisfy the
/// field constraints, and read back to the same record.
pub proof fn lemma_record_tokens(r: RecordV)
    requires
        valid_record(r),
    ensures
        tokens_of_record(r).len() == N_FIELDS,
        forall|p: int|
            0 <= p < N_FIELDS ==> token_shape(
                field_kinds()[p],
                #[trigger] tokens_of_record(r)[p],
            ),
        tokens_ok(tokens_of_record(r)),
        record_of_tokens(tokens_of_record(r)) == r,
{
    let t = tokens_of_record(r);
    lemma_type_token_shape(r.request_type);
    lemma_req_type_roundtrip(r.request_type);
    lemma_float_token_shape(r.request_processing_time);
    lemma_float_token_shape(r.target_processing_time);
    lemma_float_token_shape(r.response_processing_time);
    lemma_dec_str_shape(r.elb_status_code as nat);
    lemma_dec_str_shape(r.target_status_code as nat);
    lemma_dec_str_shape(r.received_bytes as nat);
    lemma_dec_str_shape(r.sent_bytes as nat);
    lemma_dec_str_shape(r.matched_rule_priority as nat);
    lemma_dec_str_digits(r.elb_status_code as nat);
    lemma_dec_str_digits(r.target_status_code as nat);
    lemma_dec_str_digits(r.received_bytes as nat);
    lemma_dec_str_digits(r.sent_bytes as nat);
    lemma_dec_str_digits(r.matched_rule_priority as nat);
    lemma_dec_value_dec_str(r.elb_status_code as nat);
    lemma_dec_value_dec_str(r.target_status_code as nat);
    lemma_dec_value_dec_str(r.received_bytes as nat);
    lemma_dec_value_dec_str(r.sent_bytes as nat);
    lemma_dec_value_dec_str(r.matched_rule_priority as nat);
    assert(token_shape(field_kinds()[0], t[0]));
    assert(token_shape(field_kinds()[1], t[1]));
    assert(token_shape(field_kinds()[2], t[2]));
    assert(token_shape(field_kinds()[3], t[3]));
    assert(token_shape(field_kinds()[4], t[4]));
    assert(token_shape(field_kinds()[5], t[5]));
    assert(token_shape(field_kinds()[6], t[6]));
    assert(token_shape(field_kinds()[7], t[7]));
    assert(token_shape(field_kinds()[8], t[8]));
    assert(token_shape(field_kinds()[9], t[9]));
    assert(token_shape(field_kinds()[10], t[10]));
    assert(token_shape(field_kinds()[11], t[11]));
    assert(token_shape(field_kinds()[12], t[12]));
    assert(token_shape(field_kinds()[13], t[13]));
    assert(token_shape(field_kinds()[14], t[14]));
    assert(token_shape(field_kinds()[15], t[15]));
    assert(token_shape(field_kinds()[16], t[16]));
    assert(token_shape(field_kinds()[17], t[17]));
    assert(token_shape(field_kinds()[18], t[18]));
    assert(token_shape(field_kinds()[19], t[19]));
    assert(token_shape(field_kinds()[20], t[20]));
    assert(token_shape(field_kinds()[21], t[21]));
    assert(token_shape(field_kinds()[22], t[22]));
    assert(token_shape(field_kinds()[23], t[23]));
    assert(token_shape(field_kinds()[24], t[24]));
    assert(tokens_ok(t));
    assert(record_of_tokens(t) == r);
}

/// Writing a well-formed record and parsing the written line gives the
/// record back whole.
pub proof fn lemma_render_parse(r: RecordV)
    requires
        valid_record(r),
    ensures
        spec_parse_line(spec_render_line(r)) == Some(r),
{
    let t = tokens_of_record(r);
    let s = spec_render_line(r);
    lemma_record_tokens(r);
    assert(s.skip(0) =~= s);
    lemma_tokenize_join(s, 0, t, field_kinds());
}

/// Round trip of the grammar: a line that parses, re-serialized and parsed
/// again, yields the identical record, every field preserved.
pub proof fn lemma_parse_round_trip(s: Seq<char>)
    ensures
        match spec_parse_line(s) {
            Some(r) => spec_parse_line(spec_render_line(r)) == Some(r),
            None => true,
        },
{
    if spec_parse_line(s) is Some {
        lemma_parse_line_valid(s);
        lemma_render_parse(spec_parse_line(s)->Some_0);
    }
}

/// Writes the tokens of a record, in order.
fn record_tokens(rec: &AccessLogRecord) -> (v: Vec<String>)
    ensures
        v@.map_values(|t: String| t@) == tokens_of_record(rec@),
{
    let mut v: Vec<String> = Vec::new();
    v.push(type_token_str(rec.request_type).to_owned());
    v.push(rec.timestamp.clone());
    v.push(rec.elb.clone());
    v.push(rec.client.clone());
    v.push(rec.target.clone());
    v.push(rec.request_processing_time.clone());
    v.push(rec.target_processing_time.clone());
    v.push(rec.response_processing_time.clone());
    v.push(render_dec(rec.elb_status_code as u64));
    v.push(render_dec(rec.target_status_code as u64));
    v.push(render_dec(rec.received_bytes));
    v.push(render_dec(rec.sent_bytes));
    v.push(rec.request.clone());
    v.push(rec.user_agent.clone());
    v.push(rec.ssl_cipher.clone());
    v.push(rec.ssl_protocol.clone());
    v.push(rec.target_group_arn.clone());
    v.push(rec.trace_id.clone());
    v.push(rec.domain_name.clone());
    v.push(rec.chosen_cert_arn.clone());
    v.push(render_dec(rec.matched_rule_priority as u64));
    v.push(rec.request_creation_time.clone());
    v.push(rec.actions_executed.clone());
    v.push(rec.redirect_url.clone());
    v.push(rec.error_reason.clone());
    proof {
        assert(v@.map_values(|t: String| t@) =~= tokens_of_record(rec@));
    }
    v
}

/// Joins the tokens from position `p` on, as [`spec_join`] does.
fn join_tokens(toks: &Vec<String>, p: usize) -> (out: String)
    requires
        toks@.len() == N_FIELDS,
        p < N_FIELDS,
    ensures
        out@ == spec_join(
            toks@.map_values(|t: String| t@).skip(p as int),
            field_kinds().skip(p as int),
        ),
    decreases N_FIELDS - p,
{
    let ghost tv = toks@.map_values(|t: String| t@);
    let ghost kv = field_kinds();
    proof {
        reveal_strlit("\"");
        reveal_strlit(" ");
        assert(tv.skip(p as int)[0] == tv[p as int]);
        assert(kv.skip(p as int)[0] == kv[p as int]);
        assert(tv.skip(p as int).drop_first() =~= tv.skip(p as int + 1));
        assert(kv.skip(p as int).drop_first() =~= kv.skip(p as int + 1));
        assert(kv.skip(p as int).len() == N_FIELDS - p);
    }
    let k = kind_at(p);
    let mut piece: String;
    match k {
        FieldKind::Bare => {
            piece = toks[p].clone();
            proof {
                assert(piece@ == wrap_token(kv[p as int], tv[p as int]));
            }
        },
        FieldKind::Quoted => {
            piece = "\"".to_owned();
            piece.append(toks[p].as_str());
            piece.append("\"");
            proof {
                assert("\""@ =~= seq!['"']);
                assert(piece@ == seq!['"'] + tv[p as int] + seq!['"']);
                assert(piece@ == wrap_token(kv[p as int], tv[p as int]));
            }
        },
    }
    if p + 1 < N_FIELDS {
        piece.append(" ");
        let rest = join_tokens(toks, p + 1);
        piece.append(rest.as_str());
        proof {
            assert(" "@ =~= seq![' ']);
            assert(piece@ =~= wrap_token(kv[p as int], tv[p as int]) + seq![' '] + spec_join(
                tv.skip(p as int + 1),
                kv.skip(p as int + 1),
            ));
        }
        piece
    } else {
        proof {
            assert(kv.skip(p as int).len() == 1);
        }
        piece
    }
}

/// Writes a record as one line of the grammar.
pub fn render_line(rec: &AccessLogRecord) -> (out: String)
    ensures
        out@ == spec_render_line(rec@),
{
    let toks = record_tokens(rec);
    let out = join_tokens(&toks, 0);
    proof {
        assert(toks@.map_values(|t: String| t@).skip(0) =~= tokens_of_record(rec@));
        assert(field_kinds().skip(0) =~= field_kinds());
    }
    out
}

} // verus!
