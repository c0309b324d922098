//! The normalizing tokenizer: a pure function from text to a sequence of
//! terms. A term is a maximal run of ASCII alphanumeric characters,
//! lower-cased; every other character (including all non-ASCII) is a
//! boundary. Terms are carried as byte strings.

use vstd::prelude::*;

verus! {

/// A character keeps a token going exactly when it is an ASCII alphanumeric.
pub open spec fn is_token_char(c: char) -> bool {
    let u = c as u32;
    (97 <= u && u <= 122) || (48 <= u && u <= 57) || (65 <= u && u <= 90)
}

/// The normalized byte of a token character: ASCII upper-case letters fold
/// to lower case; lower-case letters and digits keep their code.
pub open spec fn norm_byte(c: char) -> u8 {
    let u = c as u32;
    if 65 <= u && u <= 90 {
        (u + 32) as u8
    } else {
        u as u8
    }
}

/// Tokenizer state after reading a prefix of the text: the terms already
/// closed, and the run of normalized bytes still open.
pub open spec fn tok_state(s: Seq<char>) -> (Seq<Seq<u8>>, Seq<u8>)
    decreases s.len(),
{
    if s.len() == 0 {
        (Seq::empty(), Seq::empty())
    } else {
        let st = tok_state(s.drop_last());
        let c = s.last();
        if is_token_char(c) {
            (st.0, st.1.push(norm_byte(c)))
        } else if st.1.len() > 0 {
            (st.0.push(st.1), Seq::empty())
        } else {
            st
        }
    }
}

/// The terms of a text.
pub open spec fn tokens_of(s: Seq<char>) -> Seq<Seq<u8>> {
    let st = tok_state(s);
    if st.1.len() > 0 {
        st.0.push(st.1)
    } else {
        st.0
    }
}

/// Copies a byte string.
pub fn copy_bytes(v: &Vec<u8>) -> (r: Vec<u8>)
    ensures
        r@ == v@,
{
    let mut out: Vec<u8> = Vec::new();
    let mut i: usize = 0;
    while i < v.len()
        invariant
            i <= v.len(),
            out@ =~= v@.take(i as int),
        decreases v.len() - i,
    {
        out.push(v[i]);
        proof {
            assert(v@.take(i + 1) =~= v@.take(i as int).push(v@[i as int]));
        }
        i = i + 1;
    }
    proof {
        assert(v@.take(v@.len() as int) =~= v@);
    }
    out
}

/// Copies a sequence of terms.
pub fn copy_terms(v: &Vec<Vec<u8>>) -> (r: Vec<Vec<u8>>)
    ensures
        r.deep_view() == v.deep_view(),
{
    let mut out: Vec<Vec<u8>> = Vec::new();
    let mut i: usize = 0;
    while i < v.len()
        invariant
            i <= v.len(),
            out.deep_view() =~~= v.deep_view().take(i as int),
        decreases v.len() - i,
    {
        let ghost pre = out.deep_view();
        out.push(copy_bytes(&v[i]));
        proof {
            assert(out.deep_view() =~~= pre.push(v.deep_view()[i as int]));
            assert(v.deep_view().take(i + 1)
                =~= v.deep_view().take(i as int).push(v.deep_view()[i as int]));
        }
        i = i + 1;
    }
    proof {
        assert(v.deep_view().take(v.deep_view().len() as int) =~= v.deep_view());
    }
    out
}

/// Splits a text into normalized search terms.
pub fn tokenize(s: &str) -> (r: Vec<Vec<u8>>)
    ensures
        r.deep_view() == tokens_of(s@),
{
    let n = s.unicode_len();
    let mut toks: Vec<Vec<u8>> = Vec::new();
    let mut cur: Vec<u8> = Vec::new();
    let mut i: usize = 0;
    proof {
        assert(s@.take(0) =~= Seq::<char>::empty());
        assert(toks.deep_view() =~= Seq::<Seq<u8>>::empty());
        assert(cur@ =~= Seq::<u8>::empty());
    }
    while i < n
        invariant
            i <= n,
            n == s@.len(),
            toks.deep_view() == tok_state(s@.take(i as int)).0,
            cur@ == tok_state(s@.take(i as int)).1,
        decreases n - i,
    {
        let c = s.get_char(i);
        let u = c as u32;
        proof {
            assert(s@.take(i + 1).drop_last() =~= s@.take(i as int));
            assert(s@.take(i + 1).last() == s@[i as int]);
        }
        let ghost old_toks = toks.deep_view();
        if (97 <= u && u <= 122) || (48 <= u && u <= 57) || (65 <= u && u <= 90) {
            let b: u8 = if 65 <= u && u <= 90 {
                (u + 32) as u8
            } else {
                u as u8
            };
            cur.push(b);
        } else if cur.len() > 0 {
            let ghost old_cur = cur@;
            toks.push(cur);
            cur = Vec::new();
            proof {
                assert(toks.deep_view() =~~= old_toks.push(old_cur));
                assert(cur@ =~= Seq::<u8>::empty());
            }
        }
        i = i + 1;
    }
    proof {
        assert(s@.take(n as int) =~= s@);
    }
    if cur.len() > 0 {
        let ghost old_toks = toks.deep_view();
        let ghost old_cur = cur@;
        toks.push(cur);
        proof {
            assert(toks.deep_view() =~~= old_toks.push(old_cur));
        }
    }
    toks
}

} // verus!
