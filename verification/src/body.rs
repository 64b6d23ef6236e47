//! From one fetched object body to records: decompress the gzip stream,
//! decode the bytes as UTF-8, split into lines, parse each line, and keep
//! what parses. A body that does not decompress or is not UTF-8 yields no
//! records, and a line that does not parse is dropped: per-object and
//! per-line failures stay local by design.

use vstd::prelude::*;
use vstd::utf8::{valid_utf8, decode_utf8};
use crate::lex::{find_from, lemma_find_from_is};
use crate::parser::{parse_line, spec_parse_line};
use crate::record::{AccessLogRecord, RecordV};

verus! {

/// What the gzip stream of a body inflates to, or nothing when decoding
/// fails.
pub uninterp spec fn gunzip_of(b: Seq<u8>) -> Option<Seq<u8>>;

/// Relies on flate2's `GzDecoder` over an in-memory slice, driven by std's
/// `Read::read_to_end`: the inflated bytes depend on the compressed bytes
/// alone, and a malformed stream fails.
#[verifier::external_body]
fn gunzip(body: &[u8]) -> (r: Option<Vec<u8>>)
    ensures
        match r {
            Some(v) => gunzip_of(body@) == Some(v@),
            None => gunzip_of(body@) is None,
        },
{
    let mut d = flate2::read::GzDecoder::new(body);
    let mut out: Vec<u8> = Vec::new();
    match std::io::Read::read_to_end(&mut d, &mut out) {
        Ok(_) => Some(out),
        Err(_) => None,
    }
}

/// Relies on std's `str::from_utf8`: it succeeds exactly on valid UTF-8
/// and returns the text those bytes encode.
#[verifier::external_body]
fn bytes_to_str(v: &[u8]) -> (r: Option<&str>)
    ensures
        match r {
            Some(t) => valid_utf8(v@) && t@ == decode_utf8(v@),
            None => !valid_utf8(v@),
        },
{
    std::str::from_utf8(v).ok()
}

/// Drops one carriage return at the end of a line body, the mark of a
/// CRLF line ending.
pub open spec fn strip_tail_cr(t: Seq<char>) -> Seq<char> {
    if t.len() > 0 && t.last() == '\r' {
        t.drop_last()
    } else {
        t
    }
}

/// The lines of a text: split at each newline, one carriage return before
/// a newline dropped, and no empty final line after a final newline.
pub open spec fn spec_lines(s: Seq<char>) -> Seq<Seq<char>>
    decreases s.len(),
{
    if s.len() == 0 {
        Seq::empty()
    } else {
        let j = find_from(s, 0, '\n');
        if 0 <= j < s.len() {
            seq![strip_tail_cr(s.subrange(0, j))] + spec_lines(s.skip(j + 1))
        } else {
            seq![s]
        }
    }
}

/// Splits a text into its lines, as [`spec_lines`] names them.
pub fn split_lines(text: &str) -> (r: Vec<String>)
    ensures
        r@.map_values(|t: String| t@) == spec_lines(text@),
{
    let n = text.unicode_len();
    let mut out: Vec<String> = Vec::new();
    let mut i: usize = 0;
    proof {
        assert(text@.skip(0) =~= text@);
        assert(out@.map_values(|t: String| t@) + spec_lines(text@.skip(0)) =~= spec_lines(text@));
    }
    while i < n
        invariant
            n == text@.len(),
            i <= n,
            spec_lines(text@) == out@.map_values(|t: String| t@) + spec_lines(
                text@.skip(i as int),
            ),
        decreases n - i,
    {
        let ghost tail = text@.skip(i as int);
        let mut j = i;
        while j < n && text.get_char(j) != '\n'
            invariant
                n == text@.len(),
                i <= j <= n,
                forall|k: int| i <= k < j ==> text@[k] != '\n',
            decreases n - j,
        {
            j = j + 1;
        }
        proof {
            assert forall|k: int| 0 <= k < j - i implies tail[k] != '\n' by {
                assert(tail[k] == text@[i + k]);
            }
            if j < n {
                assert(tail[j - i] == text@[j as int]);
            }
            lemma_find_from_is(tail, 0, '\n', j - i);
        }
        let ghost m = out@.map_values(|t: String| t@);
        if j == n {
            out.push(text.substring_char(i, n).to_owned());
            proof {
                assert(tail =~= text@.subrange(i as int, n as int));
                assert(spec_lines(tail) == seq![tail]);
                assert(out@.map_values(|t: String| t@) =~= m.push(tail));
                assert(m.push(tail) =~= m + seq![tail]);
                assert(text@.skip(n as int) =~= Seq::<char>::empty());
                assert(spec_lines(text@.skip(n as int)) == Seq::<Seq<char>>::empty());
                assert(m + seq![tail] + Seq::<Seq<char>>::empty() =~= m + spec_lines(tail));
            }
            i = n;
        } else {
            let line =
                if j > i && text.get_char(j - 1) == '\r' {
                    text.substring_char(i, j - 1)
                } else {
                    text.substring_char(i, j)
                };
            out.push(line.to_owned());
            proof {
                let seg = tail.subrange(0, j - i);
                assert(seg =~= text@.subrange(i as int, j as int));
                let stripped = strip_tail_cr(seg);
                if j > i && text@[j - 1] == '\r' {
                    assert(seg.last() == text@[j - 1]);
                    assert(stripped =~= text@.subrange(i as int, j - 1));
                } else {
                    if seg.len() > 0 {
                        assert(seg.last() == text@[j - 1]);
                    }
                    assert(stripped =~= text@.subrange(i as int, j as int));
                }
                assert(tail.skip(j - i + 1) =~= text@.skip(j + 1));
                assert(spec_lines(tail) == seq![stripped] + spec_lines(tail.skip(j - i + 1)));
                assert(out@.map_values(|t: String| t@) =~= m.push(stripped));
                assert(m.push(stripped) + spec_lines(text@.skip(j + 1)) =~= m + (seq![stripped]
                    + spec_lines(text@.skip(j + 1))));
            }
            i = j + 1;
        }
    }
    proof {
        assert(text@.skip(n as int) =~= Seq::<char>::empty());
        assert(spec_lines(Seq::<char>::empty()) == Seq::<Seq<char>>::empty());
        assert(out@.map_values(|t: String| t@) + Seq::<Seq<char>>::empty() =~= out@.map_values(
            |t: String| t@,
        ));
    }
    out
}

/// The records the lines of a text carry, in order, lines that do not
/// parse dropped.
pub open spec fn records_of_lines(ls: Seq<Seq<char>>) -> Seq<RecordV>
    decreases ls.len(),
{
    if ls.len() == 0 {
        Seq::empty()
    } else {
        records_of_lines(ls.drop_last()) + (match spec_parse_line(ls.last()) {
            Some(r) => seq![r],
            None => Seq::empty(),
        })
    }
}

/// The records a whole text carries.
pub open spec fn spec_text_records(s: Seq<char>) -> Seq<RecordV> {
    records_of_lines(spec_lines(s))
}

/// Parses every line of a text, keeping exactly the lines that parse.
pub fn parse_text(text: &str) -> (r: Vec<AccessLogRecord>)
    ensures
        r@.map_values(|x: AccessLogRecord| x@) == spec_text_records(text@),
{
    let ls = split_lines(text);
    let ghost lv = ls@.map_values(|t: String| t@);
    let mut out: Vec<AccessLogRecord> = Vec::new();
    let mut i: usize = 0;
    proof {
        assert(lv.take(0) =~= Seq::<Seq<char>>::empty());
        assert(out@.map_values(|x: AccessLogRecord| x@) =~= records_of_lines(lv.take(0)));
    }
    while i < ls.len()
        invariant
            lv == ls@.map_values(|t: String| t@),
            i <= ls.len(),
            out@.map_values(|x: AccessLogRecord| x@) == records_of_lines(lv.take(i as int)),
        decreases ls.len() - i,
    {
        proof {
            assert(lv.take(i + 1).drop_last() =~= lv.take(i as int));
            assert(lv.take(i + 1).last() == lv[i as int]);
        }
        match parse_line(ls[i].as_str()) {
            Some(rec) => {
                out.push(rec);
                proof {
                    assert(out@.map_values(|x: AccessLogRecord| x@) =~= records_of_lines(
                        lv.take(i + 1),
                    ));
                }
            },
            None => {
                proof {
                    assert(out@.map_values(|x: AccessLogRecord| x@) =~= records_of_lines(
                        lv.take(i + 1),
                    ));
                }
            },
        }
        i = i + 1;
    }
    proof {
        assert(lv.take(ls@.len() as int) =~= lv);
    }
    out
}

/// The records one fetched, still compressed object body carries: nothing
/// when the stream does not inflate or is not UTF-8, else the records of
/// its text.
pub open spec fn spec_body_records(b: Seq<u8>) -> Seq<RecordV> {
    match gunzip_of(b) {
        None => Seq::empty(),
        Some(raw) => if valid_utf8(raw) {
            spec_text_records(decode_utf8(raw))
        } else {
            Seq::empty()
        },
    }
}

/// Inflates one object body and parses its lines.
pub fn records_from_gzipped_body(body: &[u8]) -> (r: Vec<AccessLogRecord>)
    ensures
        r@.map_values(|x: AccessLogRecord| x@) == spec_body_records(body@),
{
    let raw = match gunzip(body) {
        Some(v) => v,
        None => {
            let empty: Vec<AccessLogRecord> = Vec::new();
            proof {
                assert(empty@.map_values(|x: AccessLogRecord| x@) =~= spec_body_records(body@));
            }
            return empty;
        },
    };
    let text = match bytes_to_str(raw.as_slice()) {
        Some(t) => t,
        None => {
            let empty: Vec<AccessLogRecord> = Vec::new();
            proof {
                assert(empty@.map_values(|x: AccessLogRecord| x@) =~= spec_body_records(body@));
            }
            return empty;
        },
    };
    parse_text(text)
}

/// The records of a run of object bodies, in body order.
pub open spec fn spec_all_records(bs: Seq<Seq<u8>>) -> Seq<RecordV>
    decreases bs.len(),
{
    if bs.len() == 0 {
        Seq::empty()
    } else {
        spec_all_records(bs.drop_last()) + spec_body_records(bs.last())
    }
}

/// Inflates and parses every fetched body and joins the records, in body
/// order: the aggregate of one whole run.
pub fn collect_records(bodies: &Vec<Vec<u8>>) -> (r: Vec<AccessLogRecord>)
    ensures
        r@.map_values(|x: AccessLogRecord| x@) == spec_all_records(
            bodies@.map_values(|b: Vec<u8>| b@),
        ),
{
    let ghost bv = bodies@.map_values(|b: Vec<u8>| b@);
    let mut out: Vec<AccessLogRecord> = Vec::new();
    let mut i: usize = 0;
    proof {
        assert(bv.take(0) =~= Seq::<Seq<u8>>::empty());
        assert(out@.map_values(|x: AccessLogRecord| x@) =~= spec_all_records(bv.take(0)));
    }
    while i < bodies.len()
        invariant
            bv == bodies@.map_values(|b: Vec<u8>| b@),
            i <= bodies.len(),
            out@.map_values(|x: AccessLogRecord| x@) == spec_all_records(bv.take(i as int)),
        decreases bodies.len() - i,
    {
        let mut rs = records_from_gzipped_body(bodies[i].as_slice());
        proof {
            assert(bv.take(i + 1).drop_last() =~= bv.take(i as int));
            assert(bv.take(i + 1).last() == bv[i as int]);
        }
        out.append(&mut rs);
        proof {
            assert(out@.map_values(|x: AccessLogRecord| x@) =~= spec_all_records(bv.take(i + 1)));
        }
        i = i + 1;
    }
    proof {
        assert(bv.take(bodies@.len() as int) =~= bv);
    }
    out
}

} // verus!
