//! Key and prefix conventions: the date-partitioned listing prefix, and
//! the bucket/prefix argument split.

use vstd::prelude::*;
use crate::lex::{dec_str, find_from, lemma_find_from_is, render_dec};

verus! {

/// Decimal text of `n` left-padded with zeros to at least `width`
/// characters; wider numbers keep all their digits.
pub open spec fn pad_dec(n: nat, width: int) -> Seq<char> {
    let ds = dec_str(n);
    if ds.len() >= width {
        ds
    } else {
        Seq::new((width - ds.len()) as nat, |k: int| '0') + ds
    }
}

/// The listing prefix of one calendar day under a caller prefix:
/// `{path}/{YYYY}/{MM}/{DD}`, year to four digits, month and day to two.
pub open spec fn spec_date_prefix(path: Seq<char>, year: nat, month: nat, day: nat) -> Seq<char> {
    path + seq!['/'] + pad_dec(year, 4) + seq!['/'] + pad_dec(month, 2) + seq!['/'] + pad_dec(
        day,
        2,
    )
}

/// Writes `n` in decimal, left-padded with zeros to at least `width`
/// characters.
fn render_padded(n: u64, width: usize) -> (r: String)
    ensures
        r@ == pad_dec(n as nat, width as int),
{
    proof {
        reveal_strlit("0");
    }
    let ds = render_dec(n);
    let len = ds.as_str().unicode_len();
    if len >= width {
        proof {
            assert(ds@ == pad_dec(n as nat, width as int));
        }
        ds
    } else {
        let mut out = String::new();
        let mut k: usize = 0;
        while k < width - len
            invariant
                len < width,
                k <= width - len,
                out@ =~= Seq::new(k as nat, |m: int| '0'),
            decreases width - len - k,
        {
            out.append("0");
            proof {
                reveal_strlit("0");
                assert("0"@ =~= seq!['0']);
                assert(out@ =~= Seq::new((k + 1) as nat, |m: int| '0'));
            }
            k = k + 1;
        }
        out.append(ds.as_str());
        proof {
            assert(out@ =~= pad_dec(n as nat, width as int));
        }
        out
    }
}

/// Builds the listing prefix of one calendar day, as
/// [`spec_date_prefix`] names it.
pub fn date_prefix(path: &str, year: u64, month: u64, day: u64) -> (r: String)
    ensures
        r@ == spec_date_prefix(path@, year as nat, month as nat, day as nat),
{
    proof {
        reveal_strlit("/");
    }
    let mut out = path.to_owned();
    out.append("/");
    let y = render_padded(year, 4);
    out.append(y.as_str());
    out.append("/");
    let m = render_padded(month, 2);
    out.append(m.as_str());
    out.append("/");
    let d = render_padded(day, 2);
    out.append(d.as_str());
    proof {
        assert("/"@ =~= seq!['/']);
        assert(out@ =~= spec_date_prefix(path@, year as nat, month as nat, day as nat));
    }
    out
}

/// The bucket and the prefix an argument names: the characters before the
/// first slash, which must be at least one, and everything after it;
/// nothing when there is no slash or the bucket part is empty.
pub open spec fn spec_split_bucket(s: Seq<char>) -> Option<(Seq<char>, Seq<char>)> {
    let j = find_from(s, 0, '/');
    if 0 < j < s.len() {
        Some((s.subrange(0, j), s.skip(j + 1)))
    } else {
        None
    }
}

/// Splits a combined `bucket/prefix` argument, as [`spec_split_bucket`]
/// names it.
pub fn split_bucket_path(arg: &str) -> (r: Option<(String, String)>)
    ensures
        match r {
            Some(bp) => spec_split_bucket(arg@) == Some((bp.0@, bp.1@)),
            None => spec_split_bucket(arg@) is None,
        },
{
    let n = arg.unicode_len();
    let mut j: usize = 0;
    while j < n && arg.get_char(j) != '/'
        invariant
            n == arg@.len(),
            j <= n,
            forall|k: int| 0 <= k < j ==> arg@[k] != '/',
        decreases n - j,
    {
        j = j + 1;
    }
    proof {
        lemma_find_from_is(arg@, 0, '/', j as int);
    }
    if 0 < j && j < n {
        let bucket = arg.substring_char(0, j).to_owned();
        let rest = arg.substring_char(j + 1, n).to_owned();
        proof {
            assert(arg@.subrange(0, j as int) =~= bucket@);
            assert(arg@.skip(j + 1) =~= rest@);
        }
        Some((bucket, rest))
    } else {
        None
    }
}

} // verus!
