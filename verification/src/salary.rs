//! Salary extraction from a raw salary string: the number candidates are
//! found by a regular expression of the `regex` crate (digits, optionally
//! in comma-separated groups, optionally after a dollar sign); the first
//! candidate whose digits parse as an integer of at least 1000 is the
//! minimum salary.

use vstd::prelude::*;

verus! {

/// Whether a character is an ASCII digit.
pub open spec fn is_digit_char(c: char) -> bool {
    48 <= (c as u32) && (c as u32) <= 57
}

/// The digits of a text, in order, everything else dropped.
pub open spec fn digits_of(s: Seq<char>) -> Seq<char>
    decreases s.len(),
{
    if s.len() == 0 {
        Seq::empty()
    } else {
        let rest = digits_of(s.drop_last());
        if is_digit_char(s.last()) {
            rest.push(s.last())
        } else {
            rest
        }
    }
}

/// The base-ten value of a digit string.
pub open spec fn digits_val(d: Seq<char>) -> int
    decreases d.len(),
{
    if d.len() == 0 {
        0
    } else {
        digits_val(d.drop_last()) * 10 + (d.last() as u32 - 48)
    }
}

/// What parsing the digits of a candidate yields: nothing when there is
/// no digit or the value exceeds `i64::MAX`, else the value.
pub open spec fn candidate_parse(s: Seq<char>) -> Option<i64> {
    let d = digits_of(s);
    if d.len() == 0 || digits_val(d) > i64::MAX {
        None
    } else {
        Some(digits_val(d) as i64)
    }
}

/// The first candidate that parses to a plausible salary (at least 1000).
pub open spec fn pick_salary(cands: Seq<Seq<char>>) -> Option<i64>
    decreases cands.len(),
{
    if cands.len() == 0 {
        None
    } else {
        match candidate_parse(cands[0]) {
            Some(v) => if v >= 1000 {
                Some(v)
            } else {
                pick_salary(cands.drop_first())
            },
            None => pick_salary(cands.drop_first()),
        }
    }
}

/// The number candidates the salary pattern finds in a text.
pub uninterp spec fn salary_candidates_of(s: Seq<char>) -> Seq<Seq<char>>;

/// Relies on `regex::Regex::new` and `regex::Regex::captures_iter` with
/// the fixed pattern `\$?(\d{1,3}(?:,\d{3})*|\d+)`: the first capture
/// group of each successive match, which depends on the characters of the
/// input alone.
#[verifier::external_body]
fn salary_candidates(s: &str) -> (r: Vec<String>)
    ensures
        r.deep_view() == salary_candidates_of(s@),
{
    let mut out = Vec::new();
    if let Ok(re) = regex::Regex::new(r"\$?(\d{1,3}(?:,\d{3})*|\d+)") {
        for cap in re.captures_iter(s) {
            if let Some(m) = cap.get(1) {
                out.push(m.as_str().to_string());
            }
        }
    }
    out
}

proof fn lemma_digits_val_nonneg(d: Seq<char>)
    requires
        forall|k: int| 0 <= k < d.len() ==> is_digit_char(#[trigger] d[k]),
    ensures
        digits_val(d) >= 0,
    decreases d.len(),
{
    if d.len() == 0 {
    } else {
        lemma_digits_val_nonneg(d.drop_last());
    }
}

/// Parses the digits of one candidate, as integer parsing of the
/// digit-filtered text does: `None` on no digit at all or on overflow.
fn parse_candidate(s: &String) -> (r: Option<i64>)
    ensures
        r == candidate_parse(s@),
{
    let st: &str = s.as_str();
    let n = st.unicode_len();
    let mut acc: i64 = 0;
    let mut over: bool = false;
    let mut seen: bool = false;
    let mut i: usize = 0;
    proof {
        assert(st@.take(0) =~= Seq::<char>::empty());
    }
    while i < n
        invariant
            i <= n,
            n == st@.len(),
            st@ == s@,
            forall|k: int|
                0 <= k < digits_of(st@.take(i as int)).len() ==> is_digit_char(
                    #[trigger] digits_of(st@.take(i as int))[k],
                ),
            seen == (digits_of(st@.take(i as int)).len() > 0),
            !over ==> acc as int == digits_val(digits_of(st@.take(i as int))),
            !over ==> acc >= 0,
            over ==> digits_val(digits_of(st@.take(i as int))) > i64::MAX,
        decreases n - i,
    {
        let c = st.get_char(i);
        let u = c as u32;
        let ghost pre = digits_of(st@.take(i as int));
        proof {
            assert(st@.take(i + 1).drop_last() =~= st@.take(i as int));
            assert(st@.take(i + 1).last() == st@[i as int]);
        }
        if 48 <= u && u <= 57 {
            let d: i64 = ((u - 48) as u8) as i64;
            proof {
                assert(digits_of(st@.take(i + 1)) =~= pre.push(st@[i as int]));
                assert(pre.push(st@[i as int]).drop_last() =~= pre);
                assert(pre.push(st@[i as int]).last() == st@[i as int]);
                assert(digits_val(pre.push(st@[i as int])) == digits_val(pre) * 10 + d);
                lemma_digits_val_nonneg(pre);
            }
            if over {
                proof {
                    assert(digits_val(pre) * 10 + d > digits_val(pre)) by (nonlinear_arith)
                        requires
                            digits_val(pre) > i64::MAX,
                            d >= 0,
                    ;
                }
            } else if acc > (i64::MAX - d) / 10 {
                proof {
                    assert(acc as int * 10 + d > i64::MAX) by (nonlinear_arith)
                        requires
                            acc as int > (i64::MAX - d) / 10,
                            0 <= d <= 9,
                    ;
                }
                over = true;
            } else {
                proof {
                    assert(acc as int * 10 + d <= i64::MAX) by (nonlinear_arith)
                        requires
                            acc as int <= (i64::MAX - d) / 10,
                            0 <= acc,
                            0 <= d <= 9,
                    ;
                }
                acc = acc * 10 + d;
            }
            seen = true;
        } else {
            proof {
                assert(digits_of(st@.take(i + 1)) =~= pre);
            }
        }
        i = i + 1;
    }
    proof {
        assert(st@.take(n as int) =~= st@);
    }
    if !seen {
        None
    } else if over {
        None
    } else {
        Some(acc)
    }
}

/// The first candidate that parses to a value of at least 1000, if any.
pub fn first_valid_salary(cands: &Vec<String>) -> (r: Option<i64>)
    ensures
        r == pick_salary(cands.deep_view()),
{
    let ghost cdv = cands.deep_view();
    let mut i: usize = 0;
    proof {
        assert(cdv.skip(0) =~~= cdv);
    }
    while i < cands.len()
        invariant
            i <= cands.len(),
            cdv == cands.deep_view(),
            cdv.len() == cands@.len(),
            pick_salary(cdv) == pick_salary(cdv.skip(i as int)),
        decreases cands.len() - i,
    {
        proof {
            assert(cdv.skip(i as int)[0] == cdv[i as int]);
            assert(cdv[i as int] == cands@[i as int]@);
            assert(cdv.skip(i as int).drop_first() =~~= cdv.skip(i + 1));
        }
        match parse_candidate(&cands[i]) {
            Some(v) => {
                if v >= 1000 {
                    return Some(v);
                }
            },
            None => {},
        }
        i = i + 1;
    }
    proof {
        assert(cdv.skip(cdv.len() as int) =~~= Seq::<Seq<char>>::empty());
    }
    None
}

/// Extracts the minimum salary from a raw salary string: the first
/// number the salary pattern finds that parses to at least 1000.
pub fn extract_salary(salary_raw: &str) -> (r: Option<i64>)
    ensures
        r == pick_salary(salary_candidates_of(salary_raw@)),
{
    first_valid_salary(&salary_candidates(salary_raw))
}

} // verus!
