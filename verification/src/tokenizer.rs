//! Positional tokenizer of one access-log line.
//!
//! A line is a fixed, ordered run of fields separated by single ASCII
//! spaces. A bare field is a nonempty run of characters up to the next
//! space; a quoted field is delimited by double quotes and may hold any
//! character but a double quote, spaces included. The whole line must be
//! consumed: too few fields, too many, or a malformed field fails the line.

use vstd::prelude::*;
use crate::lex::{find_from, lemma_find_from, lemma_find_from_is};

verus! {

/// How many fields one access-log line carries.
pub const N_FIELDS: usize = 25;

#[derive(Clone, Copy, Debug, PartialEq, Eq, Structural)]
pub enum FieldKind {
    Bare,
    Quoted,
}

/// The kind of the field at position `p`: the free-text fields `request`,
/// `user_agent`, `trace_id`, `domain_name`, `chosen_cert_arn`,
/// `actions_executed`, `redirect_url` and `error_reason` are quoted, every
/// other field is bare.
pub open spec fn field_kind_at(p: int) -> FieldKind {
    if p == 12 || p == 13 || p == 17 || p == 18 || p == 19 || p == 22 || p == 23 || p == 24 {
        FieldKind::Quoted
    } else {
        FieldKind::Bare
    }
}

pub open spec fn field_kinds() -> Seq<FieldKind> {
    Seq::new(N_FIELDS as nat, |p: int| field_kind_at(p))
}

/// Executable form of [`field_kind_at`].
pub fn kind_at(p: usize) -> (k: FieldKind)
    requires
        p < N_FIELDS,
    ensures
        k == field_kinds()[p as int],
{
    if p == 12 || p == 13 || p == 17 || p == 18 || p == 19 || p == 22 || p == 23 || p == 24 {
        FieldKind::Quoted
    } else {
        FieldKind::Bare
    }
}

/// The bare field starting at `i`: the characters up to the next space or
/// the end, which must be at least one, and the position just past them.
pub open spec fn spec_take_bare(s: Seq<char>, i: int) -> Option<(Seq<char>, int)> {
    let j = find_from(s, i, ' ');
    if j > i {
        Some((s.subrange(i, j), j))
    } else {
        None
    }
}

/// The quoted field starting at `i`: an opening quote, any characters up to
/// the next quote, and that closing quote; the value is the characters
/// between the quotes and the position is just past the closing quote.
pub open spec fn spec_take_quoted(s: Seq<char>, i: int) -> Option<(Seq<char>, int)> {
    if 0 <= i < s.len() && s[i] == '"' {
        let j = find_from(s, i + 1, '"');
        if j < s.len() {
            Some((s.subrange(i + 1, j), j + 1))
        } else {
            None
        }
    } else {
        None
    }
}

/// The field values of `s` from position `i` on, read under the kind list
/// `ks` with one space between fields and nothing after the last; nothing
/// when the text does not have exactly that form.
pub open spec fn spec_tokens(s: Seq<char>, i: int, ks: Seq<FieldKind>) -> Option<Seq<Seq<char>>>
    decreases ks.len(),
{
    if ks.len() == 0 {
        if i == s.len() {
            Some(Seq::empty())
        } else {
            None
        }
    } else {
        let step = match ks[0] {
            FieldKind::Bare => spec_take_bare(s, i),
            FieldKind::Quoted => spec_take_quoted(s, i),
        };
        match step {
            None => None,
            Some((tok, j)) => {
                if ks.len() == 1 {
                    match spec_tokens(s, j, ks.drop_first()) {
                        None => None,
                        Some(rest) => Some(seq![tok] + rest),
                    }
                } else if j < s.len() && s[j] == ' ' {
                    match spec_tokens(s, j + 1, ks.drop_first()) {
                        None => None,
                        Some(rest) => Some(seq![tok] + rest),
                    }
                } else {
                    None
                }
            },
        }
    }
}

/// The structural mark each token kind leaves: a bare token is nonempty and
/// space-free, a quoted token is quote-free.
pub open spec fn token_shape(k: FieldKind, t: Seq<char>) -> bool {
    match k {
        FieldKind::Bare => t.len() > 0 && (forall|m: int| 0 <= m < t.len() ==> t[m] != ' '),
        FieldKind::Quoted => forall|m: int| 0 <= m < t.len() ==> t[m] != '"',
    }
}

/// Tokens produced by [`spec_tokens`] have their kind's shape.
pub proof fn lemma_tokens_shape(s: Seq<char>, i: int, ks: Seq<FieldKind>, toks: Seq<Seq<char>>)
    requires
        0 <= i <= s.len(),
        spec_tokens(s, i, ks) == Some(toks),
    ensures
        toks.len() == ks.len(),
        forall|p: int| 0 <= p < ks.len() ==> token_shape(ks[p], #[trigger] toks[p]),
    decreases ks.len(),
{
    if ks.len() == 0 {
        assert(toks =~= Seq::<Seq<char>>::empty());
    } else {
        let step = match ks[0] {
            FieldKind::Bare => spec_take_bare(s, i),
            FieldKind::Quoted => spec_take_quoted(s, i),
        };
        let tok = step->Some_0.0;
        let j = step->Some_0.1;
        match ks[0] {
            FieldKind::Bare => {
                lemma_find_from(s, i, ' ');
                assert(token_shape(ks[0], tok));
                assert(i <= j <= s.len());
            },
            FieldKind::Quoted => {
                lemma_find_from(s, i + 1, '"');
                assert(token_shape(ks[0], tok));
                assert(i <= j <= s.len());
            },
        }
        let next_i: int = if ks.len() == 1 {
            j
        } else {
            j + 1
        };
        let r2 = spec_tokens(s, next_i, ks.drop_first());
        let rest = r2->Some_0;
        assert(toks == seq![tok] + rest);
        lemma_tokens_shape(s, next_i, ks.drop_first(), rest);
        assert forall|p: int| 0 <= p < ks.len() implies token_shape(ks[p], toks[p]) by {
            if p == 0 {
                assert(toks[0] == tok);
            } else {
                assert(toks[p] == rest[p - 1]);
                assert(ks[p] == ks.drop_first()[p - 1]);
            }
        }
    }
}

/// Reads the bare field at `i`, exactly as [`spec_take_bare`] does.
fn take_bare(line: &str, i: usize, n: usize) -> (r: Option<(String, usize)>)
    requires
        n == line@.len(),
        i <= n,
    ensures
        match r {
            Some(tj) => spec_take_bare(line@, i as int) == Some((tj.0@, tj.1 as int)) && i < tj.1
                <= n,
            None => spec_take_bare(line@, i as int) is None,
        },
{
    let mut j = i;
    while j < n && line.get_char(j) != ' '
        invariant
            n == line@.len(),
            i <= j <= n,
            forall|k: int| i <= k < j ==> line@[k] != ' ',
        decreases n - j,
    {
        j = j + 1;
    }
    proof {
        lemma_find_from_is(line@, i as int, ' ', j as int);
    }
    if j > i {
        Some((line.substring_char(i, j).to_owned(), j))
    } else {
        None
    }
}

/// Reads the quoted field at `i`, exactly as [`spec_take_quoted`] does.
fn take_quoted(line: &str, i: usize, n: usize) -> (r: Option<(String, usize)>)
    requires
        n == line@.len(),
        i <= n,
    ensures
        match r {
            Some(tj) => spec_take_quoted(line@, i as int) == Some((tj.0@, tj.1 as int)) && i < tj.1
                <= n,
            None => spec_take_quoted(line@, i as int) is None,
        },
{
    if i < n && line.get_char(i) == '"' {
        let mut j = i + 1;
        while j < n && line.get_char(j) != '"'
            invariant
                n == line@.len(),
                i + 1 <= j <= n,
                forall|k: int| i + 1 <= k < j ==> line@[k] != '"',
            decreases n - j,
        {
            j = j + 1;
        }
        proof {
            lemma_find_from_is(line@, i + 1, '"', j as int);
        }
        if j < n {
            Some((line.substring_char(i + 1, j).to_owned(), j + 1))
        } else {
            None
        }
    } else {
        None
    }
}

/// Splits one line into its field values, exactly when the line has the
/// full fixed form; the quotes of quoted fields are stripped.
pub fn tokenize(line: &str) -> (r: Option<Vec<String>>)
    ensures
        match r {
            Some(toks) => spec_tokens(line@, 0, field_kinds()) == Some(
                toks@.map_values(|t: String| t@),
            ),
            None => spec_tokens(line@, 0, field_kinds()) is None,
        },
{
    let n = line.unicode_len();
    let mut toks: Vec<String> = Vec::new();
    let mut i: usize = 0;
    let mut p: usize = 0;
    proof {
        assert(field_kinds().skip(0) =~= field_kinds());
    }
    while p < N_FIELDS
        invariant
            n == line@.len(),
            i <= n,
            p <= N_FIELDS,
            toks@.len() == p,
            ({
                let full = spec_tokens(line@, 0, field_kinds());
                let restr = spec_tokens(line@, i as int, field_kinds().skip(p as int));
                match restr {
                    None => full is None,
                    Some(rest) => full == Some(toks@.map_values(|t: String| t@) + rest),
                }
            }),
        decreases N_FIELDS - p,
    {
        let ghost ks = field_kinds().skip(p as int);
        proof {
            assert(ks.len() == N_FIELDS - p);
            assert(ks[0] == field_kinds()[p as int]);
            assert(ks.drop_first() =~= field_kinds().skip(p as int + 1));
        }
        let k = kind_at(p);
        let step = match k {
            FieldKind::Bare => take_bare(line, i, n),
            FieldKind::Quoted => take_quoted(line, i, n),
        };
        match step {
            None => {
                proof {
                    assert(spec_tokens(line@, i as int, ks) is None);
                }
                return None;
            },
            Some(tj) => {
                let (tok, j) = tj;
                let ghost f = |t: String| t@;
                let ghost m = toks@.map_values(f);
                if p + 1 < N_FIELDS {
                    if j < n && line.get_char(j) == ' ' {
                        proof {
                            let r2 = spec_tokens(line@, j + 1, ks.drop_first());
                            if r2 is Some {
                                let rest = r2->Some_0;
                                assert(spec_tokens(line@, i as int, ks) == Some(
                                    seq![tok@] + rest,
                                ));
                                assert(toks@.push(tok).map_values(f) =~= m.push(tok@));
                                assert(m.push(tok@) + rest =~= m + (seq![tok@] + rest));
                            } else {
                                assert(spec_tokens(line@, i as int, ks) is None);
                            }
                        }
                        toks.push(tok);
                        i = j + 1;
                    } else {
                        proof {
                            assert(spec_tokens(line@, i as int, ks) is None);
                        }
                        return None;
                    }
                } else {
                    proof {
                        assert(ks.len() == 1);
                        let r2 = spec_tokens(line@, j as int, ks.drop_first());
                        if r2 is Some {
                            let rest = r2->Some_0;
                            assert(spec_tokens(line@, i as int, ks) == Some(seq![tok@] + rest));
                            assert(toks@.push(tok).map_values(f) =~= m.push(tok@));
                            assert(m.push(tok@) + rest =~= m + (seq![tok@] + rest));
                        } else {
                            assert(spec_tokens(line@, i as int, ks) is None);
                        }
                    }
                    toks.push(tok);
                    i = j;
                }
                p = p + 1;
            },
        }
    }
    proof {
        assert(field_kinds().skip(N_FIELDS as int) =~= Seq::<FieldKind>::empty());
    }
    if i == n {
        proof {
            let f = |t: String| t@;
            assert(spec_tokens(line@, i as int, Seq::<FieldKind>::empty()) == Some(
                Seq::<Seq<char>>::empty(),
            ));
            assert(toks@.map_values(f) + Seq::<Seq<char>>::empty() =~= toks@.map_values(f));
        }
        Some(toks)
    } else {
        proof {
            assert(spec_tokens(line@, i as int, Seq::<FieldKind>::empty()) is None);
        }
        None
    }
}

} // verus!
